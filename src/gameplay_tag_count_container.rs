use bevy::ecs::entity::Entity;
use bevy::platform::collections::HashMap;
use vstd::prelude::*;

use crate::gameplay_tag::GameplayTag;
use crate::gameplay_tag_container::{
    implied_parents, lemma_implied_parents_insert, lemma_path_set_full, lemma_path_set_prefix_step,
    lemma_sorted_paths_of, path_set, sorted_paths, strictly_sorted, GameplayTagContainer,
};
use crate::gameplay_tags_manager::{path_closure, GameplayTagsManager};
use crate::tag_maps::{count_clear, count_entries, count_get, count_insert, new_count_map};

verus! {

/// bevy's entity id, carried through notifications and never read.
#[verifier::external_type_specification]
#[verifier::external_body]
pub struct ExEntity(Entity);

/// The kind of a count-change notification.
#[derive(Debug, Clone, Copy, PartialEq, Eq, Structural)]
pub enum GameplayTagEventType {
    /// The tag became present (its count left zero) or absent (its count reached zero).
    NewOrRemoved,
    /// The tag's count changed.
    AnyCountChanged,
}

/// A notification that the effective count of `tag` on `entity` is now `new_count`.
#[derive(Debug)]
pub struct OnGameplayEffectTagCountChanged {
    pub entity: Entity,
    pub tag: GameplayTag,
    pub new_count: i32,
    pub event_type: GameplayTagEventType,
}

/// The tag path, new count and kind of a notification.
pub open spec fn event_view(
    e: OnGameplayEffectTagCountChanged,
) -> (Seq<char>, i32, GameplayTagEventType) {
    (e.tag@, e.new_count, e.event_type)
}

/// `new_events` is `old_events` followed by notifications for `entity` whose views are `added`.
pub open spec fn events_appended(
    old_events: Seq<OnGameplayEffectTagCountChanged>,
    new_events: Seq<OnGameplayEffectTagCountChanged>,
    added: Seq<(Seq<char>, i32, GameplayTagEventType)>,
    entity: Entity,
) -> bool {
    &&& new_events.len() == old_events.len() + added.len()
    &&& new_events.subrange(0, old_events.len() as int) == old_events
    &&& forall|i: int| old_events.len() <= i < new_events.len() ==> {
        &&& event_view(#[trigger] new_events[i]) == added[i - old_events.len()]
        &&& new_events[i].entity == entity
    }
}

/// A count kept in `i32`: negative results become zero, results past `i32::MAX` saturate.
pub open spec fn clamp_count(x: int) -> i32 {
    if x < 0 {
        0
    } else if x > i32::MAX {
        i32::MAX
    } else {
        x as i32
    }
}

/// The count of `t` in `m`; zero when absent.
pub open spec fn count_in(m: Map<Seq<char>, i32>, t: Seq<char>) -> i32 {
    if m.contains_key(t) {
        m[t]
    } else {
        0
    }
}

/// The tags whose effective count an update of `t` changes: `t` and its ancestors when the
/// registry knows `t`, none otherwise.
pub open spec fn affected_tags(reg: GameplayTagsManager, t: Seq<char>) -> Set<Seq<char>> {
    if reg.is_registered(t) {
        path_closure(t)
    } else {
        Set::empty()
    }
}

/// `m` with the count of each tag of `s` moved by `delta`.
pub open spec fn bump_counts(
    m: Map<Seq<char>, i32>,
    s: Set<Seq<char>>,
    delta: int,
) -> Map<Seq<char>, i32> {
    m.union_prefer_right(Map::new(|x: Seq<char>| s.contains(x), |x: Seq<char>| clamp_count(count_in(m, x) + delta)))
}

/// The tags held explicitly for explicit counts `e`: the valid ones with a positive count.
pub open spec fn held_tags(e: Map<Seq<char>, i32>) -> Set<Seq<char>> {
    Set::new(|t: Seq<char>| t.len() > 0 && count_in(e, t) > 0)
}

/// An update of `t` by `delta` takes effect unless it lowers a tag that is not held.
pub open spec fn update_applies(e: Map<Seq<char>, i32>, t: Seq<char>, delta: int) -> bool {
    held_tags(e).contains(t) || delta > 0
}

/// The notifications for the tags of `l`, in order, from counts `m` moved by `delta`.
pub open spec fn change_events(
    l: Seq<Seq<char>>,
    m: Map<Seq<char>, i32>,
    delta: int) -> Seq<(Seq<char>,
    i32,
    GameplayTagEventType,
)>
    decreases l.len(),
{
    if l.len() == 0 {
        seq![]
    } else {
        let t = l.last();
        let old_count = count_in(m, t);
        let new_count = clamp_count(old_count + delta);
        change_events(l.drop_last(), m, delta) + if old_count == 0 || new_count == 0 {
            seq![(t, new_count, GameplayTagEventType::NewOrRemoved), (t, new_count, GameplayTagEventType::AnyCountChanged)]
        } else {
            seq![(t, new_count, GameplayTagEventType::AnyCountChanged)]
        }
    }
}

/// Some tag of `l` has its count leave or reach zero.
pub open spec fn significant_change(l: Seq<Seq<char>>, m: Map<Seq<char>, i32>, delta: int) -> bool {
    exists|i: int| 0 <= i < l.len() && (count_in(m, #[trigger] l[i]) == 0 || clamp_count(count_in(m, l[i]) + delta) == 0)
}

/// Effective counts after an update of `t` by `delta`.
pub open spec fn next_counts(
    reg: GameplayTagsManager,
    m: Map<Seq<char>, i32>,
    e: Map<Seq<char>, i32>,
    t: Seq<char>,
    delta: int,
) -> Map<Seq<char>, i32> {
    if update_applies(e, t, delta) {
        bump_counts(m, affected_tags(reg, t), delta)
    } else {
        m
    }
}

/// Explicit counts after an update of `t` by `delta`.
pub open spec fn next_explicit_counts(
    e: Map<Seq<char>, i32>,
    t: Seq<char>,
    delta: int,
) -> Map<Seq<char>, i32> {
    if update_applies(e, t, delta) {
        e.insert(t, clamp_count(count_in(e, t) + delta))
    } else {
        e
    }
}

/// The notifications of an update of `t` by `delta`: for each affected tag in sorted order.
pub open spec fn next_events(
    reg: GameplayTagsManager,
    m: Map<Seq<char>, i32>,
    e: Map<Seq<char>, i32>,
    t: Seq<char>,
    delta: int) -> Seq<(Seq<char>,
    i32,
    GameplayTagEventType,
)> {
    if update_applies(e, t, delta) {
        change_events(sorted_paths(affected_tags(reg, t)), m, delta)
    } else {
        seq![]
    }
}

/// What an update of `t` by `delta` returns: it took effect and some affected tag's count
/// left or reached zero.
pub open spec fn update_result(
    reg: GameplayTagsManager,
    m: Map<Seq<char>, i32>,
    e: Map<Seq<char>, i32>,
    t: Seq<char>,
    delta: int,
) -> bool {
    update_applies(e, t, delta) && significant_change(sorted_paths(affected_tags(reg, t)), m, delta)
}

/// The implied tags after an update of `t` by `delta`: a newly held tag brings its ancestors;
/// a tag no longer held has them rebuilt at once unless `defer`.
pub open spec fn next_parents(
    reg: GameplayTagsManager,
    before: GameplayTagContainer,
    e: Map<Seq<char>, i32>,
    t: Seq<char>,
    delta: int,
    defer: bool,
) -> Set<Seq<char>> {
    let after = next_explicit_counts(e, t, delta);
    if !held_tags(e).contains(t) && held_tags(after).contains(t) {
        before.parent_set().union(reg.parents_of(t))
    } else if held_tags(e).contains(t) && !held_tags(after).contains(t) && !defer {
        implied_parents(reg, held_tags(after))
    } else {
        before.parent_set()
    }
}

/// Counts, explicit counts, notifications and result after updating each tag of `tags` in
/// turn by `delta`.
pub open spec fn batch_update(
    reg: GameplayTagsManager,
    m: Map<Seq<char>, i32>,
    e: Map<Seq<char>, i32>,
    tags: Seq<Seq<char>>,
    delta: int,
) -> (Map<Seq<char>, i32>, Map<Seq<char>, i32>, Seq<(Seq<char>, i32, GameplayTagEventType)>, bool)
    decreases tags.len(),
{
    if tags.len() == 0 {
        (m, e, seq![], false)
    } else {
        let prev = batch_update(reg, m, e, tags.drop_last(), delta);
        let t = tags.last();
        (
            next_counts(reg, prev.0, prev.1, t, delta),
            next_explicit_counts(prev.1, t, delta),
            prev.2 + next_events(reg, prev.0, prev.1, t, delta),
            prev.3 || update_result(reg, prev.0, prev.1, t, delta),
        )
    }
}

/// A delta small enough that a count moved by it fits in `i64`.
pub open spec fn delta_in_range(delta: int) -> bool {
    i32::MIN - i32::MAX <= delta <= i32::MAX
}

pub proof fn lemma_events_appended_trans(
    a: Seq<OnGameplayEffectTagCountChanged>,
    b: Seq<OnGameplayEffectTagCountChanged>,
    c: Seq<OnGameplayEffectTagCountChanged>,
    x: Seq<(Seq<char>, i32, GameplayTagEventType)>,
    y: Seq<(Seq<char>, i32, GameplayTagEventType)>,
    entity: Entity,
)
    requires
        events_appended(a, b, x, entity),
        events_appended(b, c, y, entity),
    ensures
        events_appended(a, c, x + y, entity),
{
    assert forall|i: int| a.len() <= i < c.len() implies {
        &&& event_view(#[trigger] c[i]) == (x + y)[i - a.len()]
        &&& c[i].entity == entity
    } by {
        if i < b.len() {
            assert(c[i] == c.subrange(0, b.len() as int)[i]);
            assert(b[i] == c[i]);
        }
    }
    assert(c.subrange(0, a.len() as int) =~= b.subrange(0, a.len() as int));
}

/// Per-tag counts for one holder: how often each tag is asserted directly (explicit counts)
/// and how often it or a descendant is (effective counts), with the explicitly held tags.
pub struct GameplayTagCountContainer {
    gameplay_tag_count_map: HashMap<String, i32>,
    explicit_tag_count_map: HashMap<String, i32>,
    explicit_tags: GameplayTagContainer,
}

impl GameplayTagCountContainer {
    /// Effective counts: each tag with the assertions of it and of its descendants.
    pub closed spec fn counts(&self) -> Map<Seq<char>, i32> {
        count_entries(self.gameplay_tag_count_map)
    }

    /// Explicit counts: each tag with the assertions of that tag alone.
    pub closed spec fn explicit_counts(&self) -> Map<Seq<char>, i32> {
        count_entries(self.explicit_tag_count_map)
    }

    /// The container of explicitly held tags.
    pub closed spec fn explicit_container(&self) -> GameplayTagContainer {
        self.explicit_tags
    }

    /// No count is negative, and the held tags are exactly the valid ones with a positive
    /// explicit count.
    pub open spec fn wf(&self) -> bool {
        &&& self.explicit_container().wf()
        &&& forall|t: Seq<char>| #[trigger] self.counts().contains_key(t) ==> self.counts()[t] >= 0
        &&& forall|t: Seq<char>| #[trigger] self.explicit_counts().contains_key(t) ==> self.explicit_counts()[t] >= 0
        &&& self.explicit_container().explicit_set() == held_tags(self.explicit_counts())
    }

    /// `self` is `old` after one update of `t` by `delta`.
    pub open spec fn is_update_of(
        &self,
        old: &GameplayTagCountContainer,
        reg: GameplayTagsManager,
        t: Seq<char>,
        delta: int,
        defer: bool,
    ) -> bool {
        &&& self.wf()
        &&& self.counts() == next_counts(reg, old.counts(), old.explicit_counts(), t, delta)
        &&& self.explicit_counts() == next_explicit_counts(old.explicit_counts(), t, delta)
        &&& self.explicit_container().parent_set() == next_parents(reg, old.explicit_container(), old.explicit_counts(), t, delta, defer)
    }

    pub fn new() -> (r: GameplayTagCountContainer)
        ensures
            r.wf(),
            r.counts().dom().is_empty(),
            r.explicit_counts().dom().is_empty(),
            r.explicit_container().explicit_view().len() == 0,
            r.explicit_container().parent_view().len() == 0,
    {
        let r = GameplayTagCountContainer {
            gameplay_tag_count_map: new_count_map(),
            explicit_tag_count_map: new_count_map(),
            explicit_tags: GameplayTagContainer::new(),
        };
        assert(r.explicit_tags.explicit_set() =~= held_tags(r.explicit_counts()));
        assert(r.counts().dom() =~= Set::<Seq<char>>::empty());
        assert(r.explicit_counts().dom() =~= Set::<Seq<char>>::empty());
        r
    }

    /// The tags held explicitly.
    pub fn get_explicit_tags(&self) -> (r: &GameplayTagContainer)
        ensures
            *r == self.explicit_container(),
    {
        &self.explicit_tags
    }

    /// The effective count of the tag is positive.
    pub fn has_matching_gameplay_tag(&self, tag_to_check: &GameplayTag) -> (r: bool)
        ensures
            r == (count_in(self.counts(), tag_to_check@) > 0),
    {
        let count = count_get(&self.gameplay_tag_count_map, tag_to_check.get_tag_name());
        count.is_some() && count.unwrap() > 0
    }

    /// `tag_container` is not empty and each of its explicit tags has a positive effective
    /// count.
    pub fn has_all_matching_gameplay_tags(&self, tag_container: &GameplayTagContainer) -> (r: bool)
        requires
            self.wf(),
        ensures
            r == (tag_container.explicit_view().len() > 0 && forall|t: Seq<char>|
                tag_container.explicit_set().contains(t) ==> #[trigger] count_in(self.counts(), t) > 0),
    {
        if tag_container.is_empty() {
            return false;
        }
        let v = &tag_container.gameplay_tags;
        let mut i: usize = 0;
        while i < v.len()
            invariant
                self.wf(),
                v == tag_container.gameplay_tags,
                i <= v@.len(),
                forall|j: int| 0 <= j < i ==> #[trigger] count_in(self.counts(), v@[j]@) > 0,
            decreases v.len() - i,
        {
            let count = count_get(&self.gameplay_tag_count_map, v[i].get_tag_name());
            if count.is_none() || count.unwrap() == 0 {
                assert(tag_container.explicit_view()[i as int] == v@[i as int]@);
                assert(!(count_in(self.counts(), v@[i as int]@) > 0));
                assert(tag_container.explicit_set().contains(v@[i as int]@));
                return false;
            }
            i = i + 1;
        }
        proof {
            assert forall|t: Seq<char>| tag_container.explicit_set().contains(t) implies #[trigger] count_in(self.counts(), t) > 0 by {
                let k = choose|k: int| 0 <= k < v@.len() && tag_container.explicit_view()[k] == t;
                assert(v@[k]@ == t);
            }
        }
        true
    }

    /// Some explicit tag of `tag_container` has a positive effective count.
    pub fn has_any_matching_gameplay_tags(self, tag_container: &GameplayTagContainer) -> (r: bool)
        ensures
            r == exists|t: Seq<char>| tag_container.explicit_set().contains(t) && #[trigger] count_in(self.counts(), t) > 0,
    {
        if tag_container.is_empty() {
            return false;
        }
        let v = &tag_container.gameplay_tags;
        let mut i: usize = 0;
        while i < v.len()
            invariant
                v == tag_container.gameplay_tags,
                i <= v@.len(),
                forall|j: int| 0 <= j < i ==> !(#[trigger] count_in(self.counts(), v@[j]@) > 0),
            decreases v.len() - i,
        {
            let count = count_get(&self.gameplay_tag_count_map, v[i].get_tag_name());
            if count.is_some() && count.unwrap() > 0 {
                assert(tag_container.explicit_view()[i as int] == v@[i as int]@);
                assert(count_in(self.counts(), v@[i as int]@) > 0);
                assert(tag_container.explicit_set().contains(v@[i as int]@));
                return true;
            }
            i = i + 1;
        }
        proof {
            assert forall|t: Seq<char>| tag_container.explicit_set().contains(t) implies !(#[trigger] count_in(self.counts(), t) > 0) by {
                let k = choose|k: int| 0 <= k < v@.len() && tag_container.explicit_view()[k] == t;
                assert(v@[k]@ == t);
            }
        }
        false
    }

    /// The effective count of the tag; zero when it has none.
    pub fn get_tag_count(&self, tag: &GameplayTag) -> (r: i32)
        ensures
            r == count_in(self.counts(), tag@),
    {
        match count_get(&self.gameplay_tag_count_map, tag.get_tag_name()) {
            Some(count) => count,
            None => 0,
        }
    }

    /// The explicit count of the tag; zero when it has none.
    pub fn get_explicit_tag_count(&self, tag: &GameplayTag) -> (r: i32)
        ensures
            r == count_in(self.explicit_counts(), tag@),
    {
        match count_get(&self.explicit_tag_count_map, tag.get_tag_name()) {
            Some(count) => count,
            None => 0,
        }
    }

    /// Clears every count and every held tag.
    pub fn reset(&mut self)
        ensures
            final(self).wf(),
            final(self).counts().dom().is_empty(),
            final(self).explicit_counts().dom().is_empty(),
            final(self).explicit_container().explicit_view().len() == 0,
            final(self).explicit_container().parent_view().len() == 0,
    {
        count_clear(&mut self.explicit_tag_count_map);
        self.explicit_tags.reset();
        count_clear(&mut self.gameplay_tag_count_map);
        assert(self.explicit_tags.explicit_set() =~= held_tags(self.explicit_counts()));
        assert(self.counts().dom() =~= Set::<Seq<char>>::empty());
        assert(self.explicit_counts().dom() =~= Set::<Seq<char>>::empty());
    }

    /// Rebuilds the implied tags of the held tags.
    pub fn fill_parent_tags(&mut self, tags_manager: &GameplayTagsManager)
        requires
            old(self).wf(),
            tags_manager.wf(),
        ensures
            final(self).wf(),
            final(self).counts() == old(self).counts(),
            final(self).explicit_counts() == old(self).explicit_counts(),
            final(self).explicit_container().gameplay_tags == old(self).explicit_container().gameplay_tags,
            final(self).explicit_container().parent_set() == implied_parents(*tags_manager, held_tags(final(self).explicit_counts())),
    {
        self.explicit_tags.fill_parent_tags(tags_manager);
        assert(self.explicit_tags.explicit_set() == old(self).explicit_tags.explicit_set());
        assert(self.explicit_container().wf());
        assert(self.counts() == old(self).counts());
        assert(self.explicit_counts() == old(self).explicit_counts());
        assert(forall|t: Seq<char>| #[trigger] self.counts().contains_key(t) ==> self.counts()[t] >= 0);
        assert(forall|t: Seq<char>| #[trigger] self.explicit_counts().contains_key(t) ==> self.explicit_counts()[t] >= 0);
        assert(self.explicit_container().explicit_set() == held_tags(self.explicit_counts()));
    }

    /// One update with the implied tags rebuilt at once when a tag stops being held.
    fn update_tag_map_internal(
        &mut self,
        tag: &GameplayTag,
        count_delta: i64,
        tags_manager: &GameplayTagsManager,
        events: &mut Vec<OnGameplayEffectTagCountChanged>,
        entity: Entity,
    ) -> (r: bool)
        requires
            old(self).wf(),
            tags_manager.wf(),
            delta_in_range(count_delta as int),
        ensures
            final(self).is_update_of(old(self), *tags_manager, tag@, count_delta as int, false),
            events_appended(old(events)@, final(events)@, next_events(*tags_manager, old(self).counts(), old(self).explicit_counts(), tag@, count_delta as int), entity),
            r == update_result(*tags_manager, old(self).counts(), old(self).explicit_counts(), tag@, count_delta as int),
    {
        if !self.update_explicit_tags(tag, count_delta, false, tags_manager) {
            assert(events@.subrange(0, events@.len() as int) =~= events@);
            false
        } else {
            self.gather_tag_change_delegates(tag, count_delta, tags_manager, events, entity)
        }
    }

    /// One update that leaves the implied tags as they are when a tag stops being held.
    fn update_tag_map_deferred_parent_removal_internal(
        &mut self,
        tag: &GameplayTag,
        count_delta: i64,
        tags_manager: &GameplayTagsManager,
        events: &mut Vec<OnGameplayEffectTagCountChanged>,
        entity: Entity,
    ) -> (r: bool)
        requires
            old(self).wf(),
            tags_manager.wf(),
            delta_in_range(count_delta as int),
        ensures
            final(self).is_update_of(old(self), *tags_manager, tag@, count_delta as int, true),
            events_appended(old(events)@, final(events)@, next_events(*tags_manager, old(self).counts(), old(self).explicit_counts(), tag@, count_delta as int), entity),
            r == update_result(*tags_manager, old(self).counts(), old(self).explicit_counts(), tag@, count_delta as int),
    {
        if !self.update_explicit_tags(tag, count_delta, true, tags_manager) {
            assert(events@.subrange(0, events@.len() as int) =~= events@);
            false
        } else {
            self.gather_tag_change_delegates(tag, count_delta, tags_manager, events, entity)
        }
    }

    /// Moves the count of `tag` by `count_delta` (nothing for zero), appending the change
    /// notifications to `events`; the implied tags are rebuilt at once when the tag stops
    /// being held. True when some count left or reached zero.
    pub fn update_tag_count(
        &mut self,
        tag: &GameplayTag,
        count_delta: i32,
        tags_manager: &GameplayTagsManager,
        events: &mut Vec<OnGameplayEffectTagCountChanged>,
        entity: Entity,
    ) -> (r: bool)
        requires
            old(self).wf(),
            tags_manager.wf(),
        ensures
            count_delta == 0 ==> *final(self) == *old(self) && final(events)@ == old(events)@ && !r,
            count_delta != 0 ==> final(self).is_update_of(old(self), *tags_manager, tag@, count_delta as int, false),
            count_delta != 0 ==> events_appended(
                old(events)@,
                final(events)@,
                next_events(*tags_manager, old(self).counts(), old(self).explicit_counts(), tag@, count_delta as int),
                entity,
            ),
            count_delta != 0 ==> r == update_result(*tags_manager, old(self).counts(), old(self).explicit_counts(), tag@, count_delta as int),
    {
        if count_delta != 0 {
            self.update_tag_map_internal(tag, count_delta as i64, tags_manager, events, entity)
        } else {
            false
        }
    }

    /// As `update_tag_count`, but when the tag stops being held its implied tags are left for
    /// the caller to rebuild.
    pub fn update_tag_count_deferred_parent_removal(
        &mut self,
        tag: &GameplayTag,
        count_delta: i32,
        tags_manager: &GameplayTagsManager,
        events: &mut Vec<OnGameplayEffectTagCountChanged>,
        entity: Entity,
    ) -> (r: bool)
        requires
            old(self).wf(),
            tags_manager.wf(),
        ensures
            count_delta == 0 ==> *final(self) == *old(self) && final(events)@ == old(events)@ && !r,
            count_delta != 0 ==> final(self).is_update_of(old(self), *tags_manager, tag@, count_delta as int, true),
            count_delta != 0 ==> events_appended(
                old(events)@,
                final(events)@,
                next_events(*tags_manager, old(self).counts(), old(self).explicit_counts(), tag@, count_delta as int),
                entity,
            ),
            count_delta != 0 ==> r == update_result(*tags_manager, old(self).counts(), old(self).explicit_counts(), tag@, count_delta as int),
    {
        if count_delta != 0 {
            self.update_tag_map_deferred_parent_removal_internal(tag, count_delta as i64, tags_manager, events, entity)
        } else {
            false
        }
    }

    /// Sets the explicit count of `tag` to `new_count` by moving it by the difference
    /// (nothing when there is none), as `update_tag_count` does.
    pub fn set_tag_count(
        &mut self,
        tag: &GameplayTag,
        new_count: i32,
        tags_manager: &GameplayTagsManager,
        events: &mut Vec<OnGameplayEffectTagCountChanged>,
        entity: Entity,
    ) -> (r: bool)
        requires
            old(self).wf(),
            tags_manager.wf(),
        ensures
            ({
                let delta = new_count - count_in(old(self).explicit_counts(), tag@);
                &&& delta == 0 ==> *final(self) == *old(self) && final(events)@ == old(events)@ && !r
                &&& delta != 0 ==> final(self).is_update_of(old(self), *tags_manager, tag@, delta, false)
                &&& delta != 0 ==> events_appended(
                    old(events)@,
                    final(events)@,
                    next_events(*tags_manager, old(self).counts(), old(self).explicit_counts(), tag@, delta),
                    entity,
                )
                &&& delta != 0 ==> r == update_result(*tags_manager, old(self).counts(), old(self).explicit_counts(), tag@, delta)
            }),
    {
        let existing_count = self.get_explicit_tag_count(tag);
        proof {
            assert(existing_count >= 0) by {
                if self.explicit_counts().contains_key(tag@) {
                    assert(self.explicit_counts()[tag@] >= 0);
                }
            }
        }
        let count_delta = new_count as i64 - existing_count as i64;
        if count_delta != 0 {
            self.update_tag_map_internal(tag, count_delta, tags_manager, events, entity)
        } else {
            false
        }
    }

    /// Moves the count of each explicit tag of `container` by `count_delta` in turn (nothing
    /// for zero). When lowering, the implied tags are rebuilt once at the end, if any update
    /// reported a count that left or reached zero.
    pub fn update_tag_container_count(
        &mut self,
        container: &GameplayTagContainer,
        count_delta: i32,
        tags_manager: &GameplayTagsManager,
        events: &mut Vec<OnGameplayEffectTagCountChanged>,
        entity: Entity,
    )
        requires
            old(self).wf(),
            tags_manager.wf(),
        ensures
            count_delta == 0 ==> *final(self) == *old(self) && final(events)@ == old(events)@,
            ({
                let st = batch_update(*tags_manager, old(self).counts(), old(self).explicit_counts(), container.explicit_view(), count_delta as int);
                &&& count_delta != 0 ==> final(self).wf()
                &&& count_delta != 0 ==> final(self).counts() == st.0
                &&& count_delta != 0 ==> final(self).explicit_counts() == st.1
                &&& count_delta != 0 ==> events_appended(old(events)@, final(events)@, st.2, entity)
                &&& count_delta > 0 ==> final(self).explicit_container().parent_set() == old(self).explicit_container().parent_set().union(
                    implied_parents(*tags_manager, held_tags(st.1).difference(held_tags(old(self).explicit_counts()))),
                )
                &&& count_delta < 0 && st.3 ==> final(self).explicit_container().parent_set() == implied_parents(*tags_manager, held_tags(st.1))
                &&& count_delta < 0 && !st.3 ==> final(self).explicit_container().parent_set() == old(self).explicit_container().parent_set()
            }),
    {
        if count_delta == 0 {
            return;
        }
        let ghost l = container.explicit_view();
        let ghost m0 = self.counts();
        let ghost e0 = self.explicit_counts();
        let ghost p0 = self.explicit_container().parent_set();
        let ghost ev0 = events@;
        let ghost delta = count_delta as int;
        let v = &container.gameplay_tags;
        let mut updated_any = false;
        let mut i: usize = 0;
        proof {
            assert(events@.subrange(0, ev0.len() as int) =~= ev0);
            assert(held_tags(e0).difference(held_tags(e0)) =~= Set::<Seq<char>>::empty());
            crate::gameplay_tag_container::lemma_implied_parents_empty(*tags_manager);
            assert(p0.union(Set::<Seq<char>>::empty()) =~= p0);
        }
        while i < v.len()
            invariant
                v == container.gameplay_tags,
                l == container.explicit_view(),
                i <= l.len(),
                delta == count_delta as int,
                count_delta != 0,
                tags_manager.wf(),
                m0 == old(self).counts(),
                e0 == old(self).explicit_counts(),
                p0 == old(self).explicit_container().parent_set(),
                ev0 == old(events)@,
                self.wf(),
                ({
                    let st = batch_update(*tags_manager, m0, e0, l.subrange(0, i as int), delta);
                    &&& self.counts() == st.0
                    &&& self.explicit_counts() == st.1
                    &&& events_appended(ev0, events@, st.2, entity)
                    &&& updated_any == st.3
                }),
                count_delta > 0 ==> held_tags(e0).subset_of(held_tags(self.explicit_counts())),
                count_delta > 0 ==> self.explicit_container().parent_set() == p0.union(
                    implied_parents(*tags_manager, held_tags(self.explicit_counts()).difference(held_tags(e0))),
                ),
                count_delta < 0 ==> self.explicit_container().parent_set() == p0,
            decreases l.len() - i,
        {
            let ghost prefix = l.subrange(0, i as int);
            let ghost before = *self;
            let ghost ev_before = events@;
            let ghost t = l[i as int];
            assert(v@[i as int]@ == t);
            let result = self.update_tag_map_deferred_parent_removal_internal(&v[i], count_delta as i64, tags_manager, events, entity);
            proof {
                let next = l.subrange(0, i + 1);
                assert(next.drop_last() =~= prefix);
                assert(next.last() == t);
                let st = batch_update(*tags_manager, m0, e0, prefix, delta);
                lemma_events_appended_trans(ev0, ev_before, events@, st.2, next_events(*tags_manager, st.0, st.1, t, delta), entity);
                let eb = before.explicit_counts();
                let ea = self.explicit_counts();
                if count_delta > 0 {
                    assert(ea == eb.insert(t, clamp_count(count_in(eb, t) + delta)));
                    if t.len() > 0 {
                        assert(held_tags(ea) =~= held_tags(eb).insert(t));
                    } else {
                        assert(held_tags(ea) =~= held_tags(eb));
                    }
                    let xb = held_tags(eb).difference(held_tags(e0));
                    let xa = held_tags(ea).difference(held_tags(e0));
                    if !held_tags(eb).contains(t) && held_tags(ea).contains(t) {
                        assert(xa =~= xb.insert(t));
                        lemma_implied_parents_insert(*tags_manager, xb, t);
                        assert(self.explicit_container().parent_set() =~= p0.union(implied_parents(*tags_manager, xa)));
                    } else {
                        assert(xa =~= xb);
                    }
                }
            }
            updated_any = updated_any || result;
            i = i + 1;
        }
        proof {
            assert(l.subrange(0, l.len() as int) =~= l);
        }
        if updated_any && count_delta < 0 {
            self.fill_parent_tags(tags_manager);
        }
    }

    /// Applies `count_delta` to the explicit count of `tag`, adding the tag when it becomes
    /// held and removing it when its count reaches zero. Lowering a tag that is not held
    /// changes nothing and returns false.
    fn update_explicit_tags(
        &mut self,
        tag: &GameplayTag,
        count_delta: i64,
        defer_parent_tags_on_remove: bool,
        tags_manager: &GameplayTagsManager,
    ) -> (r: bool)
        requires
            old(self).wf(),
            tags_manager.wf(),
            delta_in_range(count_delta as int),
        ensures
            r == update_applies(old(self).explicit_counts(), tag@, count_delta as int),
            final(self).wf(),
            final(self).counts() == old(self).counts(),
            final(self).explicit_counts() == next_explicit_counts(old(self).explicit_counts(), tag@, count_delta as int),
            final(self).explicit_container().parent_set() == next_parents(
                *tags_manager,
                old(self).explicit_container(),
                old(self).explicit_counts(),
                tag@,
                count_delta as int,
                defer_parent_tags_on_remove,
            ),
    {
        let ghost e0 = self.explicit_counts();
        let tag_already_exists = self.explicit_tags.has_tag_exact(tag);
        if !tag_already_exists {
            if count_delta > 0 {
                self.explicit_tags.add_tag(tag.clone(), tags_manager);
            } else {
                return false;
            }
        }
        let existing_count = match count_get(&self.explicit_tag_count_map, tag.get_tag_name()) {
            Some(count) => count,
            None => 0,
        };
        let new_count = clamp_to_count(existing_count as i64 + count_delta);
        count_insert(&mut self.explicit_tag_count_map, tag.get_tag_name().to_string(), new_count);
        let ghost e1 = self.explicit_counts();
        proof {
            assert(e1 == e0.insert(tag@, new_count));
            assert(count_in(e1, tag@) == new_count);
            assert forall|x: Seq<char>| x != tag@ implies count_in(e1, x) == count_in(e0, x) by {}
        }
        if new_count <= 0 {
            self.explicit_tags.remove_tag(tag, defer_parent_tags_on_remove, tags_manager);
        }
        proof {
            assert(self.explicit_tags.explicit_set() =~= held_tags(e1));
            assert forall|x: Seq<char>| #[trigger] e1.contains_key(x) implies e1[x] >= 0 by {
                if x != tag@ {
                    assert(e0.contains_key(x));
                }
            }
            assert(self.explicit_container().wf());
            assert(self.counts() == old(self).counts());
            assert(forall|t: Seq<char>| #[trigger] self.counts().contains_key(t) ==> self.counts()[t] >= 0);
        }
        true
    }

    /// Moves the effective count of `tag` and of each of its ancestors by `count_delta`,
    /// appending for each, in sorted order, a `NewOrRemoved` notification when its count left
    /// or reached zero and an `AnyCountChanged` one in any case. True when some count left or
    /// reached zero.
    fn gather_tag_change_delegates(
        &mut self,
        tag: &GameplayTag,
        count_delta: i64,
        tags_manager: &GameplayTagsManager,
        events: &mut Vec<OnGameplayEffectTagCountChanged>,
        entity: Entity,
    ) -> (r: bool)
        requires
            old(self).wf(),
            tags_manager.wf(),
            delta_in_range(count_delta as int),
        ensures
            final(self).wf(),
            final(self).explicit_counts() == old(self).explicit_counts(),
            final(self).explicit_container() == old(self).explicit_container(),
            final(self).counts() == bump_counts(old(self).counts(), affected_tags(*tags_manager, tag@), count_delta as int),
            events_appended(
                old(events)@,
                final(events)@,
                change_events(sorted_paths(affected_tags(*tags_manager, tag@)), old(self).counts(), count_delta as int),
                entity,
            ),
            r == significant_change(sorted_paths(affected_tags(*tags_manager, tag@)), old(self).counts(), count_delta as int),
    {
        let tag_and_parents_container = tags_manager.request_gameplay_tag_parents(tag);
        let list = &tag_and_parents_container.gameplay_tags;
        let ghost l = tag_and_parents_container.explicit_view();
        let ghost m0 = self.counts();
        let ghost ev0 = events@;
        proof {
            assert(path_set(l) =~= affected_tags(*tags_manager, tag@));
            lemma_sorted_paths_of(l);
            assert(path_set(l.subrange(0, 0)) =~= Set::<Seq<char>>::empty());
            assert(bump_counts(m0, Set::<Seq<char>>::empty(), count_delta as int) =~= m0);
            assert(l.subrange(0, 0).len() == 0);
            assert(events@.subrange(0, ev0.len() as int) =~= ev0);
        }
        let mut created_significant_change = false;
        let mut i: usize = 0;
        while i < list.len()
            invariant
                list == tag_and_parents_container.gameplay_tags,
                l == tag_and_parents_container.explicit_view(),
                strictly_sorted(l),
                i <= l.len(),
                delta_in_range(count_delta as int),
                self.wf(),
                self.explicit_counts() == old(self).explicit_counts(),
                self.explicit_container() == old(self).explicit_container(),
                m0 == old(self).counts(),
                ev0 == old(events)@,
                self.counts() == bump_counts(m0, path_set(l.subrange(0, i as int)), count_delta as int),
                events_appended(ev0, events@, change_events(l.subrange(0, i as int), m0, count_delta as int), entity),
                created_significant_change == significant_change(l.subrange(0, i as int), m0, count_delta as int),
            decreases l.len() - i,
        {
            let t = &list[i];
            let ghost tv = l[i as int];
            assert(t@ == tv);
            let ghost prefix = l.subrange(0, i as int);
            let ghost m_cur = self.counts();
            proof {
                lemma_path_set_prefix_step(l, i as int);
                if path_set(prefix).contains(tv) {
                    let k = choose|k: int| 0 <= k < prefix.len() && prefix[k] == tv;
                    assert(l[k] == tv);
                    assert(crate::gameplay_tag::lex_less(l[k], l[i as int]));
                    crate::gameplay_tag_container::lemma_lex_irreflexive(tv);
                }
                assert(count_in(m_cur, tv) == count_in(m0, tv));
            }
            let old_count = match count_get(&self.gameplay_tag_count_map, t.get_tag_name()) {
                Some(count) => count,
                None => 0,
            };
            let new_count = clamp_to_count(old_count as i64 + count_delta);
            count_insert(&mut self.gameplay_tag_count_map, t.get_tag_name().to_string(), new_count);
            proof {
                assert(self.counts() =~= bump_counts(m0, path_set(l.subrange(0, i + 1)), count_delta as int));
            }
            let is_significant = old_count == 0 || new_count == 0;
            let ghost ev_before = events@;
            if is_significant {
                events.push(OnGameplayEffectTagCountChanged {
                    entity,
                    tag: t.clone(),
                    new_count,
                    event_type: GameplayTagEventType::NewOrRemoved,
                });
            }
            events.push(OnGameplayEffectTagCountChanged {
                entity,
                tag: t.clone(),
                new_count,
                event_type: GameplayTagEventType::AnyCountChanged,
            });
            proof {
                let next = l.subrange(0, i + 1);
                assert(next.drop_last() =~= prefix);
                assert(next.last() == tv);
                let added = if is_significant {
                    seq![(tv, new_count, GameplayTagEventType::NewOrRemoved), (tv, new_count, GameplayTagEventType::AnyCountChanged)]
                } else {
                    seq![(tv, new_count, GameplayTagEventType::AnyCountChanged)]
                };
                assert(change_events(next, m0, count_delta as int) == change_events(prefix, m0, count_delta as int) + added);
                assert(events_appended(ev_before, events@, added, entity)) by {
                    assert(events@.subrange(0, ev_before.len() as int) =~= ev_before);
                }
                lemma_events_appended_trans(ev0, ev_before, events@, change_events(prefix, m0, count_delta as int), added, entity);
                if is_significant {
                    assert(next[i as int] == tv);
                }
                if created_significant_change {
                    let k = choose|k: int| 0 <= k < prefix.len() && (count_in(m0, #[trigger] prefix[k]) == 0 || clamp_count(count_in(m0, prefix[k]) + count_delta) == 0);
                    assert(next[k] == prefix[k]);
                }
                if significant_change(next, m0, count_delta as int) && !is_significant {
                    let k = choose|k: int| 0 <= k < next.len() && (count_in(m0, #[trigger] next[k]) == 0 || clamp_count(count_in(m0, next[k]) + count_delta) == 0);
                    assert(prefix[k] == next[k]);
                }
            }
            created_significant_change = created_significant_change || is_significant;
            i = i + 1;
        }
        proof {
            assert(l.subrange(0, l.len() as int) =~= l);
            lemma_path_set_full(l);
        }
        created_significant_change
    }
}

/// Counts a tag kept in `i32`.
fn clamp_to_count(x: i64) -> (r: i32)
    ensures
        r == clamp_count(x as int),
{
    if x < 0 {
        0
    } else if x > i32::MAX as i64 {
        i32::MAX
    } else {
        x as i32
    }
}

} // verus!
