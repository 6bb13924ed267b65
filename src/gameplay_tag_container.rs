use std::cmp::Ordering;
use vstd::prelude::*;

use crate::gameplay_tags_manager::{path_ancestors, path_closure, GameplayTagsManager};
use crate::gameplay_tag::{lemma_lex_irreflexive_from, lemma_lex_transitive_from, lex_less, GameplayTag};

verus! {

/// The paths of a sequence of tags.
pub open spec fn tags_view(v: Seq<GameplayTag>) -> Seq<Seq<char>> {
    v.map_values(|t: GameplayTag| t@)
}

/// Strictly increasing in lexicographic order, hence free of duplicates.
pub open spec fn strictly_sorted(s: Seq<Seq<char>>) -> bool {
    forall|i: int, j: int| 0 <= i < j < s.len() ==> lex_less(#[trigger] s[i], #[trigger] s[j])
}

/// The set of paths held in a sequence.
pub open spec fn path_set(s: Seq<Seq<char>>) -> Set<Seq<char>> {
    Set::new(|p: Seq<char>| s.contains(p))
}

pub proof fn lemma_lex_transitive(a: Seq<char>, b: Seq<char>, c: Seq<char>)
    requires
        lex_less(a, b),
        lex_less(b, c),
    ensures
        lex_less(a, c),
{
    lemma_lex_transitive_from(a, b, c, 0);
}

pub proof fn lemma_lex_irreflexive(a: Seq<char>)
    ensures
        !lex_less(a, a),
{
    lemma_lex_irreflexive_from(a, 0);
}

/// The ancestors that the registry gives the tags of `ts`.
pub open spec fn implied_parents(reg: GameplayTagsManager, ts: Set<Seq<char>>) -> Set<Seq<char>> {
    Set::new(|q: Seq<char>| exists|t: Seq<char>| ts.contains(t) && #[trigger] reg.parents_of(t).contains(q))
}

pub proof fn lemma_path_set_prefix_step(s: Seq<Seq<char>>, i: int)
    requires
        0 <= i < s.len(),
    ensures
        path_set(s.subrange(0, i + 1)) == path_set(s.subrange(0, i)).insert(s[i]),
{
    let a = s.subrange(0, i + 1);
    let b = s.subrange(0, i);
    assert forall|p: Seq<char>| path_set(a).contains(p) <==> path_set(b).insert(s[i]).contains(p) by {
        if a.contains(p) {
            let k = choose|k: int| 0 <= k < a.len() && a[k] == p;
            if k < i {
                assert(b[k] == p);
            }
        }
        if b.contains(p) {
            let k = choose|k: int| 0 <= k < b.len() && b[k] == p;
            assert(a[k] == p);
        }
        if p == s[i] {
            assert(a[i] == p);
        }
    }
    assert(path_set(a) =~= path_set(b).insert(s[i]));
}

pub proof fn lemma_path_set_full(s: Seq<Seq<char>>)
    ensures
        path_set(s.subrange(0, s.len() as int)) == path_set(s),
{
    assert(s.subrange(0, s.len() as int) =~= s);
}

pub proof fn lemma_implied_parents_insert(
    reg: GameplayTagsManager,
    ts: Set<Seq<char>>,
    t: Seq<char>,
)
    ensures
        implied_parents(reg, ts.insert(t)) == implied_parents(reg, ts).union(reg.parents_of(t)),
{
    assert forall|q: Seq<char>| implied_parents(reg, ts.insert(t)).contains(q) <==> implied_parents(reg, ts).union(reg.parents_of(t)).contains(q) by {
        if implied_parents(reg, ts.insert(t)).contains(q) {
            let u = choose|u: Seq<char>| ts.insert(t).contains(u) && #[trigger] reg.parents_of(u).contains(q);
            if u != t {
                assert(implied_parents(reg, ts).contains(q));
            }
        }
        if implied_parents(reg, ts).contains(q) {
            let u = choose|u: Seq<char>| ts.contains(u) && #[trigger] reg.parents_of(u).contains(q);
            assert(ts.insert(t).contains(u));
        }
        if reg.parents_of(t).contains(q) {
            assert(ts.insert(t).contains(t));
        }
    }
    assert(implied_parents(reg, ts.insert(t)) =~= implied_parents(reg, ts).union(reg.parents_of(t)));
}

pub proof fn lemma_implied_parents_empty(reg: GameplayTagsManager)
    ensures
        implied_parents(reg, Set::empty()) == Set::<Seq<char>>::empty(),
{
    assert(implied_parents(reg, Set::empty()) =~= Set::<Seq<char>>::empty());
}

/// The valid tags of `ts`.
pub open spec fn valid_tags(ts: Set<Seq<char>>) -> Set<Seq<char>> {
    Set::new(|t: Seq<char>| ts.contains(t) && t.len() > 0)
}

/// `t` is registered, and some tag of `other` is `t` or one of its ancestors.
pub open spec fn matches_any_spec(
    reg: GameplayTagsManager,
    t: Seq<char>,
    other: Set<Seq<char>>,
) -> bool {
    reg.is_registered(t) && exists|x: Seq<char>| other.contains(x) && #[trigger] path_closure(t).contains(x)
}

/// The valid tags of `ts` that match some tag of `other` hierarchically.
pub open spec fn matching_tags(
    reg: GameplayTagsManager,
    ts: Set<Seq<char>>,
    other: Set<Seq<char>>,
) -> Set<Seq<char>> {
    Set::new(|t: Seq<char>| ts.contains(t) && t.len() > 0 && matches_any_spec(reg, t, other))
}

/// The valid tags of `ts` that `other` holds too.
pub open spec fn exact_matching_tags(ts: Set<Seq<char>>, other: Set<Seq<char>>) -> Set<Seq<char>> {
    Set::new(|t: Seq<char>| ts.contains(t) && t.len() > 0 && other.contains(t))
}

pub proof fn lemma_remove_sorted(s: Seq<Seq<char>>, i: int)
    requires
        strictly_sorted(s),
        0 <= i < s.len(),
    ensures
        strictly_sorted(s.remove(i)),
        path_set(s.remove(i)) == path_set(s).remove(s[i]),
{
    let r = s.remove(i);
    assert forall|a: int, b: int| 0 <= a < b < r.len() implies lex_less(#[trigger] r[a], #[trigger] r[b]) by {
        let a0 = if a < i { a } else { a + 1 };
        let b0 = if b < i { b } else { b + 1 };
        assert(r[a] == s[a0] && r[b] == s[b0]);
    }
    assert forall|p: Seq<char>| path_set(r).contains(p) <==> path_set(s).remove(s[i]).contains(p) by {
        if r.contains(p) {
            let k = choose|k: int| 0 <= k < r.len() && r[k] == p;
            let k0 = if k < i { k } else { k + 1 };
            assert(s[k0] == p);
            lemma_lex_irreflexive(s[i]);
            if k0 < i {
                assert(lex_less(s[k0], s[i]));
            } else {
                assert(lex_less(s[i], s[k0]));
            }
        }
        if path_set(s).remove(s[i]).contains(p) {
            let k = choose|k: int| 0 <= k < s.len() && s[k] == p;
            if k < i {
                assert(r[k] == p);
            } else {
                assert(k != i);
                assert(r[k - 1] == p);
            }
        }
    }
    assert(path_set(r) =~= path_set(s).remove(s[i]));
}

/// The strictly sorted sequence that holds exactly the paths of `s`.
pub open spec fn sorted_paths(s: Set<Seq<char>>) -> Seq<Seq<char>> {
    choose|l: Seq<Seq<char>>| strictly_sorted(l) && path_set(l) == s
}

/// Two strictly sorted sequences with the same paths are equal.
pub proof fn lemma_sorted_unique(l1: Seq<Seq<char>>, l2: Seq<Seq<char>>)
    requires
        strictly_sorted(l1),
        strictly_sorted(l2),
        path_set(l1) == path_set(l2),
    ensures
        l1 == l2,
    decreases l1.len(),
{
    if l1.len() == 0 {
        if l2.len() > 0 {
            assert(path_set(l2).contains(l2[0]));
        }
        assert(l1 =~= l2);
    } else {
        assert(path_set(l1).contains(l1[0]));
        assert(path_set(l2).contains(l1[0]));
        if l2.len() == 0 {
            assert(false);
        }
        let j = choose|j: int| 0 <= j < l2.len() && l2[j] == l1[0];
        assert(path_set(l1).contains(l2[0]));
        let k = choose|k: int| 0 <= k < l1.len() && l1[k] == l2[0];
        if j > 0 {
            assert(lex_less(l2[0], l2[j]));
            if k > 0 {
                assert(lex_less(l1[0], l1[k]));
                lemma_lex_transitive(l2[0], l1[0], l2[0]);
            }
            lemma_lex_irreflexive(l2[0]);
        }
        assert(l1[0] == l2[0]);
        let r1 = l1.drop_first();
        let r2 = l2.drop_first();
        assert forall|p: Seq<char>| path_set(r1).contains(p) <==> path_set(r2).contains(p) by {
            if r1.contains(p) {
                let a = choose|a: int| 0 <= a < r1.len() && r1[a] == p;
                assert(l1[a + 1] == p);
                assert(lex_less(l1[0], p));
                assert(path_set(l2).contains(p));
                let b = choose|b: int| 0 <= b < l2.len() && l2[b] == p;
                if b == 0 {
                    lemma_lex_irreflexive(p);
                }
                assert(r2[b - 1] == p);
            }
            if r2.contains(p) {
                let a = choose|a: int| 0 <= a < r2.len() && r2[a] == p;
                assert(l2[a + 1] == p);
                assert(lex_less(l2[0], p));
                assert(path_set(l1).contains(p));
                let b = choose|b: int| 0 <= b < l1.len() && l1[b] == p;
                if b == 0 {
                    lemma_lex_irreflexive(p);
                }
                assert(r1[b - 1] == p);
            }
        }
        assert(path_set(r1) =~= path_set(r2));
        lemma_sorted_unique(r1, r2);
        assert forall|i: int| 0 <= i < l1.len() implies l1[i] == l2[i] by {
            if i > 0 {
                assert(l1[i] == r1[i - 1] && l2[i] == r2[i - 1]);
            }
        }
        assert(l1 =~= l2);
    }
}

/// A strictly sorted sequence is the sorted sequence of its paths.
pub proof fn lemma_sorted_paths_of(l: Seq<Seq<char>>)
    requires
        strictly_sorted(l),
    ensures
        sorted_paths(path_set(l)) == l,
{
    assert(strictly_sorted(l) && path_set(l) == path_set(l));
    let c = sorted_paths(path_set(l));
    assert(strictly_sorted(c) && path_set(c) == path_set(l));
    lemma_sorted_unique(c, l);
}

/// Adding a valid registered tag to a container whose implied tags are consistent makes the
/// tag and each of its ancestors held; an ancestor is held explicitly only if it was before.
pub proof fn lemma_add_tag_holds_ancestors(
    reg: GameplayTagsManager,
    before: GameplayTagContainer,
    after: GameplayTagContainer,
    t: Seq<char>,
)
    requires
        reg.wf(),
        reg.is_registered(t),
        t.len() > 0,
        before.parent_set() == implied_parents(reg, before.explicit_set()),
        after.explicit_set() == before.explicit_set().insert(t),
        after.parent_set() == (if before.explicit_set().contains(t) {
            before.parent_set()
        } else {
            before.parent_set().union(reg.parents_of(t))
        }),
    ensures
        after.holds(t),
        after.explicit_set().contains(t),
        forall|q: Seq<char>| #[trigger] path_ancestors(t).contains(q) ==> after.holds(q)
            && (after.explicit_set().contains(q) <==> before.explicit_set().contains(q)),
{
    assert forall|q: Seq<char>| #[trigger] path_ancestors(t).contains(q) implies after.holds(q)
        && (after.explicit_set().contains(q) <==> before.explicit_set().contains(q)) by {
        let i = choose|i: int| 0 <= i < t.len() && t[i] == '.' && q == t.subrange(0, i);
        assert(q.len() < t.len());
        assert(reg.parents_of(t).contains(q));
        if before.explicit_set().contains(t) {
            assert(implied_parents(reg, before.explicit_set()).contains(q));
        }
    }
}

/// Emptiness of the checked container: every container holds all of an empty one, and
/// none of it.
pub proof fn lemma_empty_container_queries(c: GameplayTagContainer, empty: GameplayTagContainer)
    requires
        empty.explicit_view().len() == 0,
    ensures
        forall|t: Seq<char>| empty.explicit_set().contains(t) ==> #[trigger] c.holds(t),
        !(exists|t: Seq<char>| empty.explicit_set().contains(t) && #[trigger] c.holds(t)),
        forall|t: Seq<char>| empty.explicit_set().contains(t) ==> #[trigger] c.explicit_set().contains(t),
        !(exists|t: Seq<char>| empty.explicit_set().contains(t) && #[trigger] c.explicit_set().contains(t)),
{
    assert(empty.explicit_set() =~= Set::<Seq<char>>::empty());
}

/// Rebuilding the implied tags twice in a row gives what rebuilding once gave.
pub proof fn lemma_fill_parent_tags_idempotent(
    reg: GameplayTagsManager,
    once: GameplayTagContainer,
    twice: GameplayTagContainer,
)
    requires
        once.wf(),
        twice.wf(),
        once.parent_set() == implied_parents(reg, once.explicit_set()),
        twice.gameplay_tags == once.gameplay_tags,
        twice.parent_set() == implied_parents(reg, twice.explicit_set()),
    ensures
        twice.parent_set() == once.parent_set(),
        twice.parent_view() == once.parent_view(),
{
    lemma_sorted_unique(twice.parent_view(), once.parent_view());
}

/// A copy of a vector of tags.
pub fn clone_tags(v: &Vec<GameplayTag>) -> (r: Vec<GameplayTag>)
    ensures
        tags_view(r@) == tags_view(v@),
{
    let mut r: Vec<GameplayTag> = Vec::new();
    let mut i: usize = 0;
    while i < v.len()
        invariant
            i <= v@.len(),
            tags_view(r@) == tags_view(v@).subrange(0, i as int),
        decreases v.len() - i,
    {
        let c = v[i].clone();
        let ghost before = r@;
        r.push(c);
        assert(tags_view(r@) =~= tags_view(before).push(c@));
        assert(tags_view(r@) =~= tags_view(v@).subrange(0, i + 1));
        i = i + 1;
    }
    assert(tags_view(v@).subrange(0, v@.len() as int) =~= tags_view(v@));
    r
}

/// Binary search for the path of `t` in a strictly sorted vector: the index where it
/// stands, or the index where it would have to be inserted.
pub fn search_tag(v: &Vec<GameplayTag>, t: &GameplayTag) -> (r: Result<usize, usize>)
    requires
        strictly_sorted(tags_view(v@)),
    ensures
        match r {
            Ok(i) => i < v@.len() && v@[i as int]@ == t@,
            Err(i) => {
                &&& i <= v@.len()
                &&& forall|j: int| 0 <= j < i ==> lex_less(#[trigger] v@[j]@, t@)
                &&& forall|j: int| i <= j < v@.len() ==> lex_less(t@, #[trigger] v@[j]@)
                &&& !tags_view(v@).contains(t@)
            },
        },
{
    let ghost s = tags_view(v@);
    let mut lo: usize = 0;
    let mut hi: usize = v.len();
    while lo < hi
        invariant
            s == tags_view(v@),
            strictly_sorted(s),
            lo <= hi <= v@.len(),
            forall|j: int| 0 <= j < lo ==> lex_less(#[trigger] v@[j]@, t@),
            forall|j: int| hi <= j < v@.len() ==> lex_less(t@, #[trigger] v@[j]@),
        decreases hi - lo,
    {
        let mid = lo + (hi - lo) / 2;
        match v[mid].compare(t) {
            Ordering::Less => {
                proof {
                    assert forall|j: int| 0 <= j < mid + 1 implies lex_less(#[trigger] v@[j]@, t@) by {
                        if j < mid {
                            assert(s[j] == v@[j]@ && s[mid as int] == v@[mid as int]@);
                            lemma_lex_transitive(v@[j]@, v@[mid as int]@, t@);
                        }
                    }
                }
                lo = mid + 1;
            },
            Ordering::Greater => {
                proof {
                    assert forall|j: int| mid <= j < v@.len() implies lex_less(t@, #[trigger] v@[j]@) by {
                        if j > mid {
                            assert(s[j] == v@[j]@ && s[mid as int] == v@[mid as int]@);
                            lemma_lex_transitive(t@, v@[mid as int]@, v@[j]@);
                        }
                    }
                }
                hi = mid;
            },
            Ordering::Equal => {
                return Ok(mid);
            },
        }
    }
    proof {
        if s.contains(t@) {
            let k = choose|k: int| 0 <= k < s.len() && s[k] == t@;
            assert(s[k] == v@[k]@);
            lemma_lex_irreflexive(t@);
        }
    }
    Err(lo)
}

/// Inserts `t` at its sorted place unless its path is already there.
pub fn insert_sorted(v: &mut Vec<GameplayTag>, t: GameplayTag)
    requires
        strictly_sorted(tags_view(old(v)@)),
    ensures
        strictly_sorted(tags_view(final(v)@)),
        path_set(tags_view(final(v)@)) == path_set(tags_view(old(v)@)).insert(t@),
        tags_view(old(v)@).contains(t@) ==> final(v)@ == old(v)@,
{
    match search_tag(v, &t) {
        Ok(i) => {
            proof {
                assert(tags_view(v@)[i as int] == t@);
                assert(path_set(tags_view(v@)) =~= path_set(tags_view(v@)).insert(t@));
            }
        },
        Err(i) => {
            let ghost s0 = tags_view(v@);
            let ghost tv = t@;
            v.insert(i, t);
            proof {
                let s1 = tags_view(v@);
                assert(s1 =~= s0.insert(i as int, tv));
                assert forall|a: int, b: int| 0 <= a < b < s1.len() implies lex_less(
                    #[trigger] s1[a],
                    #[trigger] s1[b],
                ) by {
                    if b < i {
                        assert(s1[a] == s0[a] && s1[b] == s0[b]);
                    } else if b == i {
                        assert(s1[a] == old(v)@[a]@);
                    } else if a > i {
                        assert(s1[a] == s0[a - 1] && s1[b] == s0[b - 1]);
                    } else if a == i {
                        assert(s1[b] == old(v)@[b - 1]@);
                    } else {
                        assert(s1[a] == s0[a] && s1[b] == s0[b - 1]);
                        assert(s0[a] == old(v)@[a]@ && s0[b - 1] == old(v)@[b - 1]@);
                        lemma_lex_transitive(s0[a], tv, s0[b - 1]);
                    }
                }
                assert forall|p: Seq<char>| path_set(s1).contains(p) <==> path_set(s0).insert(tv).contains(p) by {
                    if s1.contains(p) {
                        let k = choose|k: int| 0 <= k < s1.len() && s1[k] == p;
                        if k < i {
                            assert(s0[k] == p);
                        } else if k > i {
                            assert(s0[k - 1] == p);
                        }
                    }
                    if s0.contains(p) {
                        let k = choose|k: int| 0 <= k < s0.len() && s0[k] == p;
                        if k < i {
                            assert(s1[k] == p);
                        } else {
                            assert(s1[k + 1] == p);
                        }
                    }
                    if p == tv {
                        assert(s1[i as int] == p);
                    }
                }
                assert(path_set(s1) =~= path_set(s0).insert(tv));
            }
        },
    }
}

} // verus!

verus! {

/// A set of tags held directly (`gameplay_tags`) together with every ancestor that they
/// imply (`parent_tags`); both are kept strictly sorted.
pub struct GameplayTagContainer {
    pub gameplay_tags: Vec<GameplayTag>,
    pub parent_tags: Vec<GameplayTag>,
}

impl Default for GameplayTagContainer {
    fn default() -> (r: GameplayTagContainer)
        ensures
            r.wf(),
            r.explicit_view() == Seq::<Seq<char>>::empty(),
            r.parent_view() == Seq::<Seq<char>>::empty(),
    {
        GameplayTagContainer::new()
    }
}

impl GameplayTagContainer {
    /// The paths of the explicit tags, in order.
    pub open spec fn explicit_view(&self) -> Seq<Seq<char>> {
        tags_view(self.gameplay_tags@)
    }

    /// The paths of the implied ancestor tags, in order.
    pub open spec fn parent_view(&self) -> Seq<Seq<char>> {
        tags_view(self.parent_tags@)
    }

    pub open spec fn explicit_set(&self) -> Set<Seq<char>> {
        path_set(self.explicit_view())
    }

    pub open spec fn parent_set(&self) -> Set<Seq<char>> {
        path_set(self.parent_view())
    }

    /// Both sequences are strictly sorted.
    pub open spec fn wf(&self) -> bool {
        strictly_sorted(self.explicit_view()) && strictly_sorted(self.parent_view())
    }

    /// Hierarchical membership: held explicitly or implied as an ancestor.
    pub open spec fn holds(&self, t: Seq<char>) -> bool {
        self.explicit_set().contains(t) || self.parent_set().contains(t)
    }

    pub fn new() -> (r: GameplayTagContainer)
        ensures
            r.wf(),
            r.explicit_view() == Seq::<Seq<char>>::empty(),
            r.parent_view() == Seq::<Seq<char>>::empty(),
    {
        let r = GameplayTagContainer { gameplay_tags: Vec::new(), parent_tags: Vec::new() };
        assert(r.explicit_view() =~= Seq::<Seq<char>>::empty());
        assert(r.parent_view() =~= Seq::<Seq<char>>::empty());
        r
    }

    /// True when no tag is held explicitly.
    pub fn is_empty(&self) -> (r: bool)
        ensures
            r == (self.explicit_view().len() == 0),
    {
        self.gameplay_tags.len() == 0
    }

    /// Removes every explicit and every implied tag.
    pub fn reset(&mut self)
        ensures
            final(self).wf(),
            final(self).explicit_view() == Seq::<Seq<char>>::empty(),
            final(self).parent_view() == Seq::<Seq<char>>::empty(),
    {
        self.gameplay_tags.clear();
        self.parent_tags.clear();
        assert(self.explicit_view() =~= Seq::<Seq<char>>::empty());
        assert(self.parent_view() =~= Seq::<Seq<char>>::empty());
    }

    /// The tag is held explicitly or as an implied ancestor.
    pub fn has_tag(&self, tag: &GameplayTag) -> (r: bool)
        requires
            self.wf(),
        ensures
            r == self.holds(tag@),
    {
        if self.has_tag_exact(tag) {
            return true;
        }
        match search_tag(&self.parent_tags, tag) {
            Ok(i) => {
                assert(self.parent_view()[i as int] == tag@);
                true
            },
            Err(_) => false,
        }
    }

    /// The tag is held explicitly.
    pub fn has_tag_exact(&self, tag: &GameplayTag) -> (r: bool)
        requires
            self.wf(),
        ensures
            r == self.explicit_set().contains(tag@),
    {
        self.find_tag_index(tag).is_some()
    }

    /// Some explicit tag of `container_to_check` is held here, explicitly or as an ancestor.
    pub fn has_any(&self, container_to_check: &GameplayTagContainer) -> (r: bool)
        requires
            self.wf(),
        ensures
            r == exists|t: Seq<char>| container_to_check.explicit_set().contains(t) && #[trigger] self.holds(t),
    {
        if container_to_check.is_empty() {
            return false;
        }
        let v = &container_to_check.gameplay_tags;
        let mut i: usize = 0;
        while i < v.len()
            invariant
                self.wf(),
                v == container_to_check.gameplay_tags,
                i <= v@.len(),
                forall|j: int| 0 <= j < i ==> !self.holds(#[trigger] v@[j]@),
            decreases v.len() - i,
        {
            if self.has_tag(&v[i]) {
                assert(container_to_check.explicit_view()[i as int] == v@[i as int]@);
                return true;
            }
            i = i + 1;
        }
        proof {
            assert forall|t: Seq<char>| container_to_check.explicit_set().contains(t) implies !self.holds(t) by {
                let k = choose|k: int| 0 <= k < v@.len() && container_to_check.explicit_view()[k] == t;
                assert(v@[k]@ == t);
            }
        }
        false
    }

    /// Some explicit tag of `container_to_check` is held here explicitly.
    pub fn has_any_exact(&self, container_to_check: &GameplayTagContainer) -> (r: bool)
        requires
            self.wf(),
        ensures
            r == exists|t: Seq<char>| container_to_check.explicit_set().contains(t) && #[trigger] self.explicit_set().contains(t),
    {
        if container_to_check.is_empty() {
            return false;
        }
        let v = &container_to_check.gameplay_tags;
        let mut i: usize = 0;
        while i < v.len()
            invariant
                self.wf(),
                v == container_to_check.gameplay_tags,
                i <= v@.len(),
                forall|j: int| 0 <= j < i ==> !self.explicit_set().contains(#[trigger] v@[j]@),
            decreases v.len() - i,
        {
            if self.has_tag_exact(&v[i]) {
                assert(container_to_check.explicit_view()[i as int] == v@[i as int]@);
                return true;
            }
            i = i + 1;
        }
        proof {
            assert forall|t: Seq<char>| container_to_check.explicit_set().contains(t) implies !self.explicit_set().contains(t) by {
                let k = choose|k: int| 0 <= k < v@.len() && container_to_check.explicit_view()[k] == t;
                assert(v@[k]@ == t);
            }
        }
        false
    }

    /// Every explicit tag of `container_to_check` is held here, explicitly or as an ancestor;
    /// true when `container_to_check` is empty.
    pub fn has_all(&self, container_to_check: &GameplayTagContainer) -> (r: bool)
        requires
            self.wf(),
        ensures
            r == forall|t: Seq<char>| container_to_check.explicit_set().contains(t) ==> #[trigger] self.holds(t),
    {
        if container_to_check.is_empty() {
            return true;
        }
        let v = &container_to_check.gameplay_tags;
        let mut i: usize = 0;
        while i < v.len()
            invariant
                self.wf(),
                v == container_to_check.gameplay_tags,
                i <= v@.len(),
                forall|j: int| 0 <= j < i ==> self.holds(#[trigger] v@[j]@),
            decreases v.len() - i,
        {
            if !self.has_tag(&v[i]) {
                assert(container_to_check.explicit_view()[i as int] == v@[i as int]@);
                return false;
            }
            i = i + 1;
        }
        proof {
            assert forall|t: Seq<char>| container_to_check.explicit_set().contains(t) implies self.holds(t) by {
                let k = choose|k: int| 0 <= k < v@.len() && container_to_check.explicit_view()[k] == t;
                assert(v@[k]@ == t);
            }
        }
        true
    }

    /// Every explicit tag of `container_to_check` is held here explicitly; true when
    /// `container_to_check` is empty.
    pub fn has_all_exact(&self, container_to_check: &GameplayTagContainer) -> (r: bool)
        requires
            self.wf(),
        ensures
            r == forall|t: Seq<char>| container_to_check.explicit_set().contains(t) ==> #[trigger] self.explicit_set().contains(t),
    {
        if container_to_check.is_empty() {
            return true;
        }
        let v = &container_to_check.gameplay_tags;
        let mut i: usize = 0;
        while i < v.len()
            invariant
                self.wf(),
                v == container_to_check.gameplay_tags,
                i <= v@.len(),
                forall|j: int| 0 <= j < i ==> self.explicit_set().contains(#[trigger] v@[j]@),
            decreases v.len() - i,
        {
            if !self.has_tag_exact(&v[i]) {
                assert(container_to_check.explicit_view()[i as int] == v@[i as int]@);
                return false;
            }
            i = i + 1;
        }
        proof {
            assert forall|t: Seq<char>| container_to_check.explicit_set().contains(t) implies self.explicit_set().contains(t) by {
                let k = choose|k: int| 0 <= k < v@.len() && container_to_check.explicit_view()[k] == t;
                assert(v@[k]@ == t);
            }
        }
        true
    }

    /// Adds to the implied tags every ancestor that the registry gives `tag`.
    pub fn add_parent_tag(&mut self, tag: GameplayTag, tags_manager: &GameplayTagsManager)
        requires
            old(self).wf(),
            tags_manager.wf(),
        ensures
            final(self).wf(),
            final(self).gameplay_tags == old(self).gameplay_tags,
            final(self).parent_set() == old(self).parent_set().union(tags_manager.parents_of(tag@)),
    {
        match tags_manager.get_single_tag_container(&tag) {
            Some(exist_container) => {
                let ps = &exist_container.parent_tags;
                let ghost s = tags_view(ps@);
                let mut i: usize = 0;
                while i < ps.len()
                    invariant
                        s == tags_view(ps@),
                        path_set(s) == tags_manager.parents_of(tag@),
                        i <= ps@.len(),
                        self.wf(),
                        self.gameplay_tags == old(self).gameplay_tags,
                        self.parent_set() == old(self).parent_set().union(path_set(s.subrange(0, i as int))),
                    decreases ps.len() - i,
                {
                    insert_sorted(&mut self.parent_tags, ps[i].clone());
                    proof {
                        lemma_path_set_prefix_step(s, i as int);
                        assert(self.parent_set() =~= old(self).parent_set().union(path_set(s.subrange(0, i + 1))));
                    }
                    i = i + 1;
                }
                proof {
                    lemma_path_set_full(s);
                }
            },
            None => {
                assert(self.parent_set() =~= old(self).parent_set().union(tags_manager.parents_of(tag@)));
            },
        }
    }

    /// Adds a valid tag (does nothing with an empty one), with the ancestors that the
    /// registry gives it; a tag already held changes nothing.
    pub fn add_tag(&mut self, tag: GameplayTag, tags_manager: &GameplayTagsManager)
        requires
            old(self).wf(),
            tags_manager.wf(),
        ensures
            final(self).wf(),
            tag@.len() == 0 ==> *final(self) == *old(self),
            tag@.len() > 0 ==> final(self).explicit_set() == old(self).explicit_set().insert(tag@),
            tag@.len() > 0 ==> final(self).parent_set() == (if old(self).explicit_set().contains(tag@) {
                old(self).parent_set()
            } else {
                old(self).parent_set().union(tags_manager.parents_of(tag@))
            }),
    {
        if tag.is_valid() {
            self.add_tag_fast(tag, tags_manager);
        }
    }

    /// `add_tag` for a tag that the caller knows to be valid: the tag is added whatever its
    /// path.
    pub fn add_tag_fast(&mut self, tag: GameplayTag, tags_manager: &GameplayTagsManager)
        requires
            old(self).wf(),
            tags_manager.wf(),
        ensures
            final(self).wf(),
            final(self).explicit_set() == old(self).explicit_set().insert(tag@),
            final(self).parent_set() == (if old(self).explicit_set().contains(tag@) {
                old(self).parent_set()
            } else {
                old(self).parent_set().union(tags_manager.parents_of(tag@))
            }),
            old(self).explicit_set().contains(tag@) ==> *final(self) == *old(self),
    {
        if !self.has_tag_exact(&tag) {
            insert_sorted(&mut self.gameplay_tags, tag.clone());
            self.add_parent_tag(tag, tags_manager);
        } else {
            assert(self.explicit_set() =~= old(self).explicit_set().insert(tag@));
        }
    }

    /// Rebuilds the implied tags from the explicit ones: exactly the ancestors that the
    /// registry gives them.
    pub fn fill_parent_tags(&mut self, tags_manager: &GameplayTagsManager)
        requires
            old(self).wf(),
            tags_manager.wf(),
        ensures
            final(self).wf(),
            final(self).gameplay_tags == old(self).gameplay_tags,
            final(self).parent_set() == implied_parents(*tags_manager, final(self).explicit_set()),
    {
        self.parent_tags.clear();
        let ghost s = self.explicit_view();
        proof {
            assert(self.parent_view() =~= Seq::<Seq<char>>::empty());
            assert(path_set(s.subrange(0, 0)) =~= Set::<Seq<char>>::empty());
            assert(self.parent_set() =~= Set::<Seq<char>>::empty());
            lemma_implied_parents_empty(*tags_manager);
        }
        let mut i: usize = 0;
        while i < self.gameplay_tags.len()
            invariant
                self.wf(),
                tags_manager.wf(),
                self.gameplay_tags == old(self).gameplay_tags,
                s == self.explicit_view(),
                i <= s.len(),
                self.parent_set() == implied_parents(*tags_manager, path_set(s.subrange(0, i as int))),
            decreases s.len() - i,
        {
            let tag = self.gameplay_tags[i].clone();
            self.add_parent_tag(tag, tags_manager);
            proof {
                lemma_path_set_prefix_step(s, i as int);
                lemma_implied_parents_insert(*tags_manager, path_set(s.subrange(0, i as int)), s[i as int]);
            }
            i = i + 1;
        }
        proof {
            lemma_path_set_full(s);
        }
    }

    /// A new container whose explicit tags are every tag held here, explicit or implied;
    /// its implied tags are empty.
    pub fn get_gameplay_tag_parents(&self) -> (r: GameplayTagContainer)
        requires
            self.wf(),
        ensures
            r.wf(),
            r.explicit_set() == self.explicit_set().union(self.parent_set()),
            r.parent_view().len() == 0,
    {
        let mut result_container = GameplayTagContainer::new();
        result_container.gameplay_tags = clone_tags(&self.gameplay_tags);
        let ps = &self.parent_tags;
        let ghost s = self.parent_view();
        let mut i: usize = 0;
        while i < ps.len()
            invariant
                self.wf(),
                ps == self.parent_tags,
                s == self.parent_view(),
                i <= s.len(),
                result_container.wf(),
                result_container.parent_view().len() == 0,
                result_container.explicit_set() == self.explicit_set().union(path_set(s.subrange(0, i as int))),
            decreases s.len() - i,
        {
            insert_sorted(&mut result_container.gameplay_tags, ps[i].clone());
            proof {
                lemma_path_set_prefix_step(s, i as int);
                assert(result_container.explicit_set() =~= self.explicit_set().union(path_set(s.subrange(0, i + 1))));
            }
            i = i + 1;
        }
        proof {
            lemma_path_set_full(s);
        }
        result_container
    }

    /// Removes the explicit tag at `index`; the implied tags are left as they are.
    fn remove_explicit_at(&mut self, index: usize)
        requires
            old(self).wf(),
            index < old(self).explicit_view().len(),
        ensures
            final(self).wf(),
            final(self).explicit_set() == old(self).explicit_set().remove(old(self).explicit_view()[index as int]),
            final(self).parent_tags == old(self).parent_tags,
    {
        let ghost s = self.explicit_view();
        self.gameplay_tags.remove(index);
        proof {
            assert(self.explicit_view() =~= s.remove(index as int));
            lemma_remove_sorted(s, index as int);
        }
    }

    /// Removes an explicit tag; true when it was held. Unless `defer_parent_tags` is set,
    /// the implied tags are then rebuilt; if it is set, the caller rebuilds them later.
    pub fn remove_tag(
        &mut self,
        tag: &GameplayTag,
        defer_parent_tags: bool,
        tags_manager: &GameplayTagsManager,
    ) -> (r: bool)
        requires
            old(self).wf(),
            tags_manager.wf(),
        ensures
            final(self).wf(),
            r == old(self).explicit_set().contains(tag@),
            final(self).explicit_set() == old(self).explicit_set().remove(tag@),
            r && !defer_parent_tags ==> final(self).parent_set() == implied_parents(*tags_manager, final(self).explicit_set()),
            !(r && !defer_parent_tags) ==> final(self).parent_tags == old(self).parent_tags,
    {
        match self.find_tag_index(tag) {
            Some(index) => {
                self.remove_explicit_at(index);
                if !defer_parent_tags {
                    self.fill_parent_tags(tags_manager);
                }
                true
            },
            None => {
                assert(self.explicit_set() =~= old(self).explicit_set().remove(tag@));
                false
            },
        }
    }

    /// Removes every explicit tag of `tags_to_remove`; if any was held, the implied tags
    /// are rebuilt once at the end.
    pub fn remove_tags(
        &mut self,
        tags_to_remove: GameplayTagContainer,
        tags_manager: &GameplayTagsManager,
    )
        requires
            old(self).wf(),
            tags_manager.wf(),
        ensures
            final(self).wf(),
            final(self).explicit_set() == old(self).explicit_set().difference(tags_to_remove.explicit_set()),
            (exists|t: Seq<char>| old(self).explicit_set().contains(t) && #[trigger] tags_to_remove.explicit_set().contains(t))
                ==> final(self).parent_set() == implied_parents(*tags_manager, final(self).explicit_set()),
            !(exists|t: Seq<char>| old(self).explicit_set().contains(t) && #[trigger] tags_to_remove.explicit_set().contains(t))
                ==> final(self).parent_tags == old(self).parent_tags,
    {
        let ghost s = tags_to_remove.explicit_view();
        let ghost e0 = old(self).explicit_set();
        let v = &tags_to_remove.gameplay_tags;
        let mut changed = false;
        let mut i: usize = 0;
        proof {
            assert(path_set(s.subrange(0, 0)) =~= Set::<Seq<char>>::empty());
            assert(self.explicit_set() =~= e0.difference(Set::<Seq<char>>::empty()));
        }
        while i < v.len()
            invariant
                v == tags_to_remove.gameplay_tags,
                s == tags_to_remove.explicit_view(),
                e0 == old(self).explicit_set(),
                i <= s.len(),
                self.wf(),
                tags_manager.wf(),
                self.explicit_set() == e0.difference(path_set(s.subrange(0, i as int))),
                changed == exists|t: Seq<char>| e0.contains(t) && #[trigger] path_set(s.subrange(0, i as int)).contains(t),
                !changed ==> self.parent_tags == old(self).parent_tags,
            decreases s.len() - i,
        {
            let ghost prev = path_set(s.subrange(0, i as int));
            let ghost t = s[i as int];
            proof {
                lemma_path_set_prefix_step(s, i as int);
            }
            match self.find_tag_index(&v[i]) {
                Some(index) => {
                    assert(v@[i as int]@ == t);
                    assert(self.explicit_view()[index as int] == t);
                    assert(self.explicit_set().contains(t));
                    self.remove_explicit_at(index);
                    proof {
                        assert(self.explicit_set() =~= e0.difference(prev.insert(t)));
                        assert(e0.contains(t) && path_set(s.subrange(0, i + 1)).contains(t));
                    }
                    changed = true;
                },
                None => {
                    assert(v@[i as int]@ == t);
                    proof {
                        assert(self.explicit_set() =~= e0.difference(prev.insert(t)));
                        if exists|u: Seq<char>| e0.contains(u) && #[trigger] prev.insert(t).contains(u) {
                            let u = choose|u: Seq<char>| e0.contains(u) && #[trigger] prev.insert(t).contains(u);
                            if u == t {
                                assert(prev.contains(u));
                            }
                            assert(prev.contains(u));
                        }
                        if changed {
                            let u = choose|u: Seq<char>| e0.contains(u) && #[trigger] path_set(s.subrange(0, i as int)).contains(u);
                            assert(path_set(s.subrange(0, i + 1)).contains(u));
                        }
                    }
                },
            }
            i = i + 1;
        }
        proof {
            lemma_path_set_full(s);
        }
        if changed {
            self.fill_parent_tags(tags_manager);
        }
    }

    /// Adds each valid explicit tag of `other`, with its ancestors.
    pub fn append_tags(&mut self, other: &GameplayTagContainer, tags_manager: &GameplayTagsManager)
        requires
            old(self).wf(),
            tags_manager.wf(),
        ensures
            final(self).wf(),
            final(self).explicit_set() == old(self).explicit_set().union(valid_tags(other.explicit_set())),
            final(self).parent_set() == old(self).parent_set().union(
                implied_parents(*tags_manager, valid_tags(other.explicit_set()).difference(old(self).explicit_set())),
            ),
    {
        let ghost s = other.explicit_view();
        let ghost e0 = old(self).explicit_set();
        let ghost p0 = old(self).parent_set();
        let v = &other.gameplay_tags;
        let mut i: usize = 0;
        proof {
            assert(path_set(s.subrange(0, 0)) =~= Set::<Seq<char>>::empty());
            assert(valid_tags(Set::<Seq<char>>::empty()) =~= Set::<Seq<char>>::empty());
            assert(self.explicit_set() =~= e0.union(Set::<Seq<char>>::empty()));
            assert(Set::<Seq<char>>::empty().difference(e0) =~= Set::<Seq<char>>::empty());
            lemma_implied_parents_empty(*tags_manager);
            assert(self.parent_set() =~= p0.union(Set::<Seq<char>>::empty()));
        }
        while i < v.len()
            invariant
                v == other.gameplay_tags,
                s == other.explicit_view(),
                e0 == old(self).explicit_set(),
                p0 == old(self).parent_set(),
                i <= s.len(),
                self.wf(),
                tags_manager.wf(),
                self.explicit_set() == e0.union(valid_tags(path_set(s.subrange(0, i as int)))),
                self.parent_set() == p0.union(implied_parents(*tags_manager, valid_tags(path_set(s.subrange(0, i as int))).difference(e0))),
            decreases s.len() - i,
        {
            let ghost prev = valid_tags(path_set(s.subrange(0, i as int)));
            let ghost cur_p = self.parent_set();
            let ghost t = s[i as int];
            let ghost was_held = self.explicit_set().contains(t);
            proof {
                lemma_path_set_prefix_step(s, i as int);
            }
            self.add_tag(v[i].clone(), tags_manager);
            proof {
                let next = valid_tags(path_set(s.subrange(0, i + 1)));
                if t.len() == 0 {
                    assert(next =~= prev);
                } else {
                    assert(next =~= prev.insert(t));
                    assert(self.explicit_set() =~= e0.union(next));
                    if was_held {
                        assert(next.difference(e0) =~= prev.difference(e0));
                    } else {
                        assert(next.difference(e0) =~= prev.difference(e0).insert(t));
                        lemma_implied_parents_insert(*tags_manager, prev.difference(e0), t);
                        assert(self.parent_set() =~= p0.union(implied_parents(*tags_manager, next.difference(e0))));
                    }
                }
            }
            i = i + 1;
        }
        proof {
            lemma_path_set_full(s);
        }
    }

    /// Adds each valid explicit tag of `other_a` that matches, hierarchically, an explicit
    /// tag of `other_b`.
    pub fn append_matches_tags(
        &mut self,
        other_a: &GameplayTagContainer,
        other_b: &GameplayTagContainer,
        tags_manager: &GameplayTagsManager,
    )
        requires
            old(self).wf(),
            tags_manager.wf(),
        ensures
            final(self).wf(),
            final(self).explicit_set() == old(self).explicit_set().union(
                matching_tags(*tags_manager, other_a.explicit_set(), other_b.explicit_set()),
            ),
            final(self).parent_set() == old(self).parent_set().union(
                implied_parents(
                    *tags_manager,
                    matching_tags(*tags_manager, other_a.explicit_set(), other_b.explicit_set()).difference(old(self).explicit_set()),
                ),
            ),
    {
        let matches = other_a.filter(other_b, tags_manager);
        assert(valid_tags(matches.explicit_set()) =~= matches.explicit_set());
        self.append_tags(&matches, tags_manager);
    }

    /// A new container with the valid explicit tags of this one that match, hierarchically,
    /// an explicit tag of `other`, and their ancestors.
    pub fn filter(
        &self,
        other: &GameplayTagContainer,
        tags_manager: &GameplayTagsManager,
    ) -> (r: GameplayTagContainer)
        requires
            tags_manager.wf(),
        ensures
            r.wf(),
            r.explicit_set() == matching_tags(*tags_manager, self.explicit_set(), other.explicit_set()),
            r.parent_set() == implied_parents(*tags_manager, r.explicit_set()),
    {
        let ghost s = self.explicit_view();
        let ghost o = other.explicit_set();
        let mut filtered_tags = GameplayTagContainer::new();
        let v = &self.gameplay_tags;
        let mut i: usize = 0;
        proof {
            assert(path_set(s.subrange(0, 0)) =~= Set::<Seq<char>>::empty());
            assert(matching_tags(*tags_manager, Set::<Seq<char>>::empty(), o) =~= Set::<Seq<char>>::empty());
            assert(filtered_tags.explicit_set() =~= Set::<Seq<char>>::empty());
            assert(filtered_tags.parent_set() =~= Set::<Seq<char>>::empty());
            lemma_implied_parents_empty(*tags_manager);
        }
        while i < v.len()
            invariant
                v == self.gameplay_tags,
                s == self.explicit_view(),
                o == other.explicit_set(),
                i <= s.len(),
                tags_manager.wf(),
                filtered_tags.wf(),
                filtered_tags.explicit_set() == matching_tags(*tags_manager, path_set(s.subrange(0, i as int)), o),
                filtered_tags.parent_set() == implied_parents(*tags_manager, filtered_tags.explicit_set()),
            decreases s.len() - i,
        {
            let ghost prev = matching_tags(*tags_manager, path_set(s.subrange(0, i as int)), o);
            let ghost t = s[i as int];
            proof {
                lemma_path_set_prefix_step(s, i as int);
            }
            if v[i].matches_any(other, tags_manager) {
                let ghost was_held = filtered_tags.explicit_set().contains(t);
                filtered_tags.add_tag(v[i].clone(), tags_manager);
                proof {
                    let next = matching_tags(*tags_manager, path_set(s.subrange(0, i + 1)), o);
                    if t.len() == 0 {
                        assert(next =~= prev);
                    } else {
                        assert(next =~= prev.insert(t));
                        if was_held {
                            assert(prev.insert(t) =~= prev);
                        } else {
                            lemma_implied_parents_insert(*tags_manager, prev, t);
                        }
                    }
                }
            } else {
                assert(matching_tags(*tags_manager, path_set(s.subrange(0, i + 1)), o) =~= prev);
            }
            i = i + 1;
        }
        proof {
            lemma_path_set_full(s);
        }
        filtered_tags
    }

    /// A new container with the valid explicit tags of this one that `other` holds
    /// explicitly too, and their ancestors.
    pub fn filter_exact(
        &self,
        other: &GameplayTagContainer,
        tags_manager: &GameplayTagsManager,
    ) -> (r: GameplayTagContainer)
        requires
            other.wf(),
            tags_manager.wf(),
        ensures
            r.wf(),
            r.explicit_set() == exact_matching_tags(self.explicit_set(), other.explicit_set()),
            r.parent_set() == implied_parents(*tags_manager, r.explicit_set()),
    {
        let ghost s = self.explicit_view();
        let ghost o = other.explicit_set();
        let mut filtered_tags = GameplayTagContainer::new();
        let v = &self.gameplay_tags;
        let mut i: usize = 0;
        proof {
            assert(path_set(s.subrange(0, 0)) =~= Set::<Seq<char>>::empty());
            assert(exact_matching_tags(Set::<Seq<char>>::empty(), o) =~= Set::<Seq<char>>::empty());
            assert(filtered_tags.explicit_set() =~= Set::<Seq<char>>::empty());
            assert(filtered_tags.parent_set() =~= Set::<Seq<char>>::empty());
            lemma_implied_parents_empty(*tags_manager);
        }
        while i < v.len()
            invariant
                v == self.gameplay_tags,
                s == self.explicit_view(),
                o == other.explicit_set(),
                other.wf(),
                i <= s.len(),
                tags_manager.wf(),
                filtered_tags.wf(),
                filtered_tags.explicit_set() == exact_matching_tags(path_set(s.subrange(0, i as int)), o),
                filtered_tags.parent_set() == implied_parents(*tags_manager, filtered_tags.explicit_set()),
            decreases s.len() - i,
        {
            let ghost prev = exact_matching_tags(path_set(s.subrange(0, i as int)), o);
            let ghost t = s[i as int];
            proof {
                lemma_path_set_prefix_step(s, i as int);
            }
            if v[i].matches_any_exact(other) {
                let ghost was_held = filtered_tags.explicit_set().contains(t);
                filtered_tags.add_tag(v[i].clone(), tags_manager);
                proof {
                    let next = exact_matching_tags(path_set(s.subrange(0, i + 1)), o);
                    if t.len() == 0 {
                        assert(next =~= prev);
                    } else {
                        assert(next =~= prev.insert(t));
                        if was_held {
                            assert(prev.insert(t) =~= prev);
                        } else {
                            lemma_implied_parents_insert(*tags_manager, prev, t);
                        }
                    }
                }
            } else {
                assert(exact_matching_tags(path_set(s.subrange(0, i + 1)), o) =~= prev);
            }
            i = i + 1;
        }
        proof {
            lemma_path_set_full(s);
        }
        filtered_tags
    }

    /// The index of the tag among the explicit tags.
    fn find_tag_index(&self, tag: &GameplayTag) -> (r: Option<usize>)
        requires
            self.wf(),
        ensures
            match r {
                Some(i) => i < self.explicit_view().len() && self.explicit_view()[i as int] == tag@,
                None => !self.explicit_set().contains(tag@),
            },
    {
        match search_tag(&self.gameplay_tags, tag) {
            Ok(i) => Some(i),
            Err(_) => None,
        }
    }
}

} // verus!
