//! Disjoint sets of members, each set named by the root of a forest of
//! group numbers.
use vstd::prelude::*;
use std::collections::HashMap;
use std::hash::Hash;
use vstd::std_specs::hash::obeys_key_model;

verus! {

/// Members map to group numbers; each group points to a parent group, and a
/// group that points to itself is a root. Two members are in one set when
/// their groups lead to the same root.
pub struct UnionFind<T: Eq + Hash> {
    members: HashMap<T, usize>,
    groups: HashMap<usize, usize>,
    /// A rank that grows strictly from a group to its parent.
    level: Ghost<Map<usize, nat>>,
    /// Bounds every rank.
    bound: Ghost<nat>,
}

impl<T: Eq + Hash> UnionFind<T> {
    /// The root reached from group `g`.
    closed spec fn find(&self, g: usize) -> usize
        decreases self.bound@ - self.level@[g],
    {
        let p = self.groups@[g];
        if self.groups@.contains_key(g) && p != g && self.level@[g] < self.level@[p]
            <= self.bound@ {
            self.find(p)
        } else {
            g
        }
    }

    /// `m` has been added.
    pub closed spec fn contains(&self, m: T) -> bool {
        self.members@.contains_key(m)
    }

    /// The root of the set that `m` belongs to, `None` for a member never added.
    pub closed spec fn root_of(&self, m: T) -> Option<usize> {
        if self.members@.contains_key(m) {
            Some(self.find(self.members@[m]))
        } else {
            None
        }
    }

    /// `a` and `b` have been added and belong to one set.
    pub open spec fn linked(&self, a: T, b: T) -> bool {
        self.contains(a) && self.contains(b) && self.root_of(a) == self.root_of(b)
    }

    /// `a` joins the set of `x` and `y` when these are united.
    pub open spec fn joins(&self, a: T, x: T, y: T) -> bool {
        a == x || a == y || self.linked(a, x) || self.linked(a, y)
    }

    /// The number of groups made so far.
    pub closed spec fn groups_made(&self) -> nat {
        self.groups@.len()
    }

    pub closed spec fn wf(&self) -> bool {
        &&& obeys_key_model::<T>()
        &&& forall|g: usize| #[trigger] self.groups@.contains_key(g) <==> 1 <= g <= self.groups@.len()
        &&& forall|m: T| #[trigger] self.members@.contains_key(m) ==> self.groups@.contains_key(self.members@[m])
        &&& forall|g: usize| #[trigger] self.groups@.contains_key(g) ==> self.level@[g] <= self.bound@
        &&& forall|g: usize| self.groups@.contains_key(g) ==> {
            let p = #[trigger] self.groups@[g];
            &&& self.groups@.contains_key(p)
            &&& (p != g ==> self.level@[g] < self.level@[p])
        }
    }

    /// The root of `g` is a group, and a root.
    proof fn lemma_find(&self, g: usize)
        requires
            self.wf(),
            self.groups@.contains_key(g),
        ensures
            self.groups@.contains_key(self.find(g)),
            self.groups@[self.find(g)] == self.find(g),
            self.groups@[g] != g ==> self.find(g) == self.find(self.groups@[g]),
            self.groups@[g] == g ==> self.find(g) == g,
        decreases self.bound@ - self.level@[g],
    {
        let p = self.groups@[g];
        if p != g {
            assert(self.groups@.contains_key(p));
            self.lemma_find(p);
        }
    }

    pub fn new() -> (r: Self)
        requires
            obeys_key_model::<T>(),
        ensures
            r.wf(),
            forall|m: T| !r.contains(m),
            r.groups_made() == 0,
    {
        broadcast use vstd::std_specs::hash::group_hash_axioms;

        let members: HashMap<T, usize> = HashMap::new();
        let groups: HashMap<usize, usize> = HashMap::new();
        UnionFind { members, groups, level: Ghost(Map::empty()), bound: Ghost(0) }
    }

    /// The root of the set that `member` belongs to.
    pub fn root_group(&self, member: &T) -> (r: Option<&usize>)
        requires
            self.wf(),
        ensures
            match r {
                Some(g) => self.root_of(*member) == Some(*g),
                None => self.root_of(*member) is None,
            },
    {
        broadcast use vstd::std_specs::hash::group_hash_axioms;

        let group = self.members.get(member);
        match group {
            None => None,
            Some(group) => self.find_root_group(group),
        }
    }

    /// The root reached from `group`, `None` for an unknown group.
    fn find_root_group(&self, group: &usize) -> (r: Option<&usize>)
        requires
            self.wf(),
        ensures
            match r {
                Some(g) => self.groups@.contains_key(*group) && *g == self.find(*group),
                None => !self.groups@.contains_key(*group),
            },
        decreases self.bound@ - self.level@[*group],
    {
        broadcast use vstd::std_specs::hash::group_hash_axioms;

        let parent = self.groups.get(group);
        match parent {
            None => return None,
            Some(parent) => {
                proof { self.lemma_find(*group); }
                if parent != group {
                    return self.find_root_group(parent);
                } else {
                    Some(parent)
                }
            },
        }
    }

    /// The number of groups made so far.
    pub fn group_count(&self) -> (r: usize)
        requires
            self.wf(),
        ensures
            r == self.groups_made(),
    {
        broadcast use vstd::std_specs::hash::group_hash_axioms;

        self.groups.len()
    }

    /// Whether `x` and `y` have the same root; two members never added
    /// count as the same.
    pub fn is_same(&self, x: &T, y: &T) -> (r: bool)
        requires
            self.wf(),
        ensures
            r == (self.root_of(*x) == self.root_of(*y)),
    {
        let rx = self.root_group(x);
        let ry = self.root_group(y);
        return rx == ry;
    }

    /// `find` reads only the groups and their ranks.
    proof fn lemma_find_same(a: &Self, b: &Self, h: usize)
        requires
            a.groups@ == b.groups@,
            a.level@ == b.level@,
            a.bound@ == b.bound@,
        ensures
            a.find(h) == b.find(h),
        decreases a.bound@ - a.level@[h],
    {
        let p = a.groups@[h];
        if a.groups@.contains_key(h) && p != h && a.level@[h] < a.level@[p] <= a.bound@ {
            Self::lemma_find_same(a, b, p);
        }
    }

    /// A new root group `n` leaves every other root as it was.
    proof fn lemma_find_fresh(a: &Self, b: &Self, n: usize, h: usize)
        requires
            !a.groups@.contains_key(n),
            a.groups@.contains_key(h),
            b.groups@ == a.groups@.insert(n, n),
            b.level@ == a.level@.insert(n, 0),
            b.bound@ == a.bound@,
            a.wf(),
        ensures
            b.find(h) == a.find(h),
        decreases a.bound@ - a.level@[h],
    {
        let p = a.groups@[h];
        if p != h {
            assert(a.groups@.contains_key(p));
            Self::lemma_find_fresh(a, b, n, p);
        }
    }

    /// Hanging root `ry` under root `rx` sends what led to `ry` on to `rx`.
    proof fn lemma_find_link(a: &Self, b: &Self, rx: usize, ry: usize, h: usize)
        requires
            a.wf(),
            b.wf(),
            rx != ry,
            a.groups@.contains_key(rx),
            a.groups@.contains_key(ry),
            a.groups@[rx] == rx,
            a.groups@[ry] == ry,
            b.groups@ == a.groups@.insert(ry, rx),
            a.groups@.contains_key(h),
            forall|g: usize| g != rx ==> b.level@[g] == a.level@[g],
            a.level@[rx] <= b.level@[rx],
            a.bound@ <= b.bound@,
        ensures
            b.find(h) == if a.find(h) == ry { rx } else { a.find(h) },
        decreases a.bound@ - a.level@[h],
    {
        a.lemma_find(h);
        b.lemma_find(h);
        let p = a.groups@[h];
        if p == h {
            if h == ry {
                b.lemma_find(rx);
            }
        } else {
            assert(a.groups@.contains_key(p));
            Self::lemma_find_link(a, b, rx, ry, p);
        }
    }

    /// `post` is `pre` with `x` and `y` put into one set: the members are
    /// those of `pre` and `x` and `y`, and two members are linked when they
    /// were, or when each was `x`, `y` or linked to one of them.
    pub open spec fn unite_done(pre: &Self, post: &Self, x: T, y: T) -> bool {
        &&& post.wf()
        &&& forall|m: T| #[trigger] post.contains(m) <==> (pre.contains(m) || m == x || m == y)
        &&& forall|a: T, b: T| #[trigger] post.linked(a, b) <==> (pre.linked(a, b) || (pre.joins(a, x, y)
            && pre.joins(b, x, y)))
        &&& post.groups_made() <= pre.groups_made() + 1
    }

    proof fn lemma_unite_fresh(pre: &Self, post: &Self, x: T, y: T, n: usize)
        requires
            pre.wf(),
            !pre.contains(x),
            !pre.contains(y),
            n == pre.groups@.len() + 1,
            post.members@ == pre.members@.insert(x, n).insert(y, n),
            post.groups@ == pre.groups@.insert(n, n),
            post.level@ == pre.level@.insert(n, 0),
            post.bound@ == pre.bound@,
        ensures
            Self::unite_done(pre, post, x, y),
    {
        assert(!pre.groups@.contains_key(n));
        assert(post.groups@.dom() =~= pre.groups@.dom().insert(n));
        assert(post.groups@.len() == pre.groups@.len() + 1);
        assert(post.wf());
        assert forall|h: usize| pre.groups@.contains_key(h) implies post.find(h) == pre.find(h) by {
            Self::lemma_find_fresh(pre, post, n, h);
        }
        post.lemma_find(n);
        assert forall|m: T| #[trigger] post.root_of(m) == if m == x || m == y {
            Some(n)
        } else {
            pre.root_of(m)
        } by {
            if pre.members@.contains_key(m) {
                pre.lemma_find(pre.members@[m]);
            }
        }
        assert forall|m: T| #[trigger] pre.root_of(m) != Some(n) by {
            if pre.members@.contains_key(m) {
                pre.lemma_find(pre.members@[m]);
            }
        }
    }

    /// The new member `x` joins the set of `y`, whose root is `r`.
    proof fn lemma_unite_into(pre: &Self, post: &Self, x: T, y: T, r: usize)
        requires
            pre.wf(),
            !pre.contains(x),
            pre.root_of(y) == Some(r),
            post.members@ == pre.members@.insert(x, r),
            post.groups@ == pre.groups@,
            post.level@ == pre.level@,
            post.bound@ == pre.bound@,
        ensures
            Self::unite_done(pre, post, x, y),
            Self::unite_done(pre, post, y, x),
    {
        assert forall|h: usize| #[trigger] post.find(h) == pre.find(h) by {
            Self::lemma_find_same(post, pre, h);
        }
        pre.lemma_find(pre.members@[y]);
        assert(post.wf());
    }

    /// Rank update for hanging root `ry` under root `rx`: `rx` rises above `ry`.
    pub closed spec fn linked_levels(pre: &Self, post: &Self, rx: usize, ry: usize) -> bool {
        let top = if pre.level@[rx] > pre.level@[ry] + 1 {
            pre.level@[rx]
        } else {
            pre.level@[ry] + 1
        };
        &&& post.level@ == pre.level@.insert(rx, top)
        &&& post.bound@ == if top > pre.bound@ {
            top
        } else {
            pre.bound@
        }
    }

    proof fn lemma_link_wf(pre: &Self, post: &Self, y: T, rx: usize, ry: usize)
        requires
            pre.wf(),
            rx != ry,
            pre.groups@.contains_key(rx),
            pre.groups@.contains_key(ry),
            pre.groups@[rx] == rx,
            pre.groups@[ry] == ry,
            post.members@ == pre.members@.insert(y, rx),
            post.groups@ == pre.groups@.insert(ry, rx),
            Self::linked_levels(pre, post, rx, ry),
        ensures
            post.wf(),
    {
        assert(post.groups@.dom() =~= pre.groups@.dom());
        assert(post.groups@.len() == pre.groups@.len());
        assert forall|m: T| #[trigger] post.members@.contains_key(m) implies post.groups@.contains_key(post.members@[m]) by {
            if m != y {
                assert(pre.members@.contains_key(m));
            }
        }
        assert forall|g: usize| #[trigger] post.groups@.contains_key(g) implies post.level@[g] <= post.bound@ by {
            assert(pre.groups@.contains_key(g));
        }
        assert forall|g: usize| post.groups@.contains_key(g) implies {
            let p = #[trigger] post.groups@[g];
            &&& post.groups@.contains_key(p)
            &&& (p != g ==> post.level@[g] < post.level@[p])
        } by {
            assert(pre.groups@.contains_key(g));
            let p = pre.groups@[g];
            assert(pre.groups@.contains_key(p));
            assert(pre.level@[g] <= pre.bound@);
            if g == ry {
                assert(post.groups@[g] == rx);
                assert(post.level@[g] == pre.level@[g]);
            } else if g == rx {
                assert(post.groups@[g] == rx);
            } else {
                assert(post.groups@[g] == p);
                assert(post.level@[g] == pre.level@[g]);
                if p != g {
                    assert(pre.level@[g] < pre.level@[p]);
                }
            }
        }
        assert forall|g: usize| #[trigger] post.groups@.contains_key(g) <==> 1 <= g <= post.groups@.len() by {
            assert(pre.groups@.contains_key(g) <==> 1 <= g <= pre.groups@.len());
        }
    }

    proof fn lemma_link_roots(pre: &Self, post: &Self, y: T, rx: usize, ry: usize)
        requires
            pre.wf(),
            rx != ry,
            pre.groups@.contains_key(rx),
            pre.groups@[rx] == rx,
            pre.root_of(y) == Some(ry),
            post.members@ == pre.members@.insert(y, rx),
            post.groups@ == pre.groups@.insert(ry, rx),
            Self::linked_levels(pre, post, rx, ry),
        ensures
            post.wf(),
            forall|m: T| #[trigger] post.root_of(m) == match pre.root_of(m) {
                Some(g) => Some(if g == ry { rx } else { g }),
                None => None::<usize>,
            },
    {
        pre.lemma_find(pre.members@[y]);
        Self::lemma_link_wf(pre, post, y, rx, ry);
        assert forall|h: usize| pre.groups@.contains_key(h) implies #[trigger] post.find(h) == if pre.find(h) == ry {
            rx
        } else {
            pre.find(h)
        } by {
            Self::lemma_find_link(pre, post, rx, ry, h);
        }
        post.lemma_find(rx);
        assert forall|m: T| #[trigger] post.root_of(m) == match pre.root_of(m) {
            Some(g) => Some(if g == ry { rx } else { g }),
            None => None::<usize>,
        } by {
            if pre.members@.contains_key(m) {
                pre.lemma_find(pre.members@[m]);
            }
        }
    }

    /// Both members were there, with roots `rx` and `ry`; `ry` now hangs
    /// under `rx`, and `y` points at `rx` directly.
    proof fn lemma_unite_link(pre: &Self, post: &Self, x: T, y: T, rx: usize, ry: usize)
        requires
            pre.wf(),
            rx != ry,
            pre.root_of(x) == Some(rx),
            pre.root_of(y) == Some(ry),
            post.members@ == pre.members@.insert(y, rx),
            post.groups@ == pre.groups@.insert(ry, rx),
            Self::linked_levels(pre, post, rx, ry),
        ensures
            Self::unite_done(pre, post, x, y),
    {
        pre.lemma_find(pre.members@[x]);
        Self::lemma_link_roots(pre, post, y, rx, ry);
    }

    /// Both members were already in one set, with root `r`.
    proof fn lemma_unite_same(pre: &Self, post: &Self, x: T, y: T, r: usize)
        requires
            pre.wf(),
            pre.root_of(x) == Some(r),
            pre.root_of(y) == Some(r),
            post.members@ == pre.members@.insert(y, r),
            post.groups@ == pre.groups@.insert(r, r),
            post.level@ == pre.level@,
            post.bound@ == pre.bound@,
        ensures
            Self::unite_done(pre, post, x, y),
    {
        pre.lemma_find(pre.members@[y]);
        assert(post.groups@ =~= pre.groups@);
        assert forall|h: usize| #[trigger] post.find(h) == pre.find(h) by {
            Self::lemma_find_same(post, pre, h);
        }
        assert forall|m: T| #[trigger] post.members@.contains_key(m) implies post.groups@.contains_key(post.members@[m]) by {
            if m != y {
                assert(pre.members@.contains_key(m));
            }
        }
        assert(post.wf());
        assert forall|m: T| #[trigger] post.root_of(m) == pre.root_of(m) by {
            if m == y {
                assert(post.members@[m] == r);
            }
        }
    }

    /// Puts `x` and `y` into one set, adding either if it is new.
    pub fn unite(&mut self, x: T, y: T)
        requires
            old(self).wf(),
            old(self).groups_made() < usize::MAX,
        ensures
            Self::unite_done(old(self), final(self), x, y),
    {
        broadcast use vstd::std_specs::hash::group_hash_axioms;

        let rx: Option<usize> = match self.root_group(&x) {
            Some(g) => Some(*g),
            None => None,
        };
        let ry: Option<usize> = match self.root_group(&y) {
            Some(g) => Some(*g),
            None => None,
        };
        let ghost pre = *self;
        if rx.is_none() && ry.is_none() {
            let new_group = self.groups.len() + 1;
            let ghost (gx, gy) = (x, y);
            self.members.insert(x, new_group);
            self.members.insert(y, new_group);
            self.groups.insert(new_group, new_group);
            self.level = Ghost(self.level@.insert(new_group, 0));
            proof { Self::lemma_unite_fresh(&pre, &*self, gx, gy, new_group); }
            return;
        }
        if rx.is_none() {
            let ry = ry.unwrap();
            let ghost (gx, gy) = (x, y);
            self.members.insert(x, ry);
            proof { Self::lemma_unite_into(&pre, &*self, gx, gy, ry); }
            return;
        } else {
            let rx = rx.unwrap();
            let ghost (gx, gy) = (x, y);
            if let Some(ry) = ry {
                self.groups.insert(ry, rx);
                proof {
                    if rx != ry {
                        let new_level = if pre.level@[rx] > pre.level@[ry] + 1 {
                            pre.level@[rx]
                        } else {
                            pre.level@[ry] + 1
                        };
                        self.level@ = pre.level@.insert(rx, new_level);
                        if new_level > pre.bound@ {
                            self.bound@ = new_level;
                        }
                    }
                }
            }
            self.members.insert(y, rx);
            proof {
                match ry {
                    Some(ry) => {
                        if rx != ry {
                            Self::lemma_unite_link(&pre, &*self, gx, gy, rx, ry);
                        } else {
                            Self::lemma_unite_same(&pre, &*self, gx, gy, rx);
                        }
                    },
                    None => Self::lemma_unite_into(&pre, &*self, gy, gx, rx),
                }
            }
            return;
        }
    }
}

} // verus!
