use bevy::ecs::entity::Entity;
use gameplay_tags::gameplay_tag::GameplayTag;
use gameplay_tags::gameplay_tag_container::GameplayTagContainer;
use gameplay_tags::gameplay_tag_count_container::{
    GameplayTagCountContainer, GameplayTagEventType, OnGameplayEffectTagCountChanged,
};
use gameplay_tags::gameplay_tags_manager::GameplayTagsManager;

fn reg() -> GameplayTagsManager {
    let labels: Vec<String> = ["A.B.C", "A.B.D", "A.C", "D", "D.C", "D.C.B", "A.C.B"]
        .iter()
        .map(|s| s.to_string())
        .collect();
    GameplayTagsManager::from_tag_names(&labels)
}

fn tag(s: &str) -> GameplayTag {
    GameplayTag::new(s)
}

fn view(events: &[OnGameplayEffectTagCountChanged]) -> Vec<(String, i32, GameplayTagEventType)> {
    events
        .iter()
        .map(|e| (e.tag.get_tag_name().to_string(), e.new_count, e.event_type))
        .collect()
}

fn ev(t: &str, n: i32, k: GameplayTagEventType) -> (String, i32, GameplayTagEventType) {
    (t.to_string(), n, k)
}

use GameplayTagEventType::{AnyCountChanged, NewOrRemoved};

#[test]
fn aggregation_example() {
    let reg = reg();
    let e = Entity::PLACEHOLDER;
    let mut events = Vec::new();
    let mut c = GameplayTagCountContainer::new();
    assert!(c.update_tag_count(&tag("A.B.C"), 1, &reg, &mut events, e));
    assert_eq!(c.get_tag_count(&tag("A.B.C")), 1);
    assert_eq!(c.get_tag_count(&tag("A.B")), 1);
    assert_eq!(c.get_tag_count(&tag("A")), 1);
    assert_eq!(c.get_explicit_tag_count(&tag("A.B.C")), 1);
    assert_eq!(c.get_explicit_tag_count(&tag("A.B")), 0);
    assert!(c.get_explicit_tags().has_tag_exact(&tag("A.B.C")));
    assert!(c.update_tag_count(&tag("A.B.C"), -1, &reg, &mut events, e));
    assert_eq!(c.get_tag_count(&tag("A.B.C")), 0);
    assert_eq!(c.get_tag_count(&tag("A.B")), 0);
    assert_eq!(c.get_tag_count(&tag("A")), 0);
    assert_eq!(c.get_explicit_tag_count(&tag("A.B.C")), 0);
    assert!(!c.get_explicit_tags().has_tag_exact(&tag("A.B.C")));
    assert!(c.get_explicit_tags().parent_tags.is_empty());
}

#[test]
fn event_example() {
    let reg = reg();
    let e = Entity::PLACEHOLDER;
    let mut events = Vec::new();
    let mut c = GameplayTagCountContainer::new();
    c.update_tag_count(&tag("A.B.C"), 1, &reg, &mut events, e);
    assert_eq!(
        view(&events),
        vec![
            ev("A", 1, NewOrRemoved),
            ev("A", 1, AnyCountChanged),
            ev("A.B", 1, NewOrRemoved),
            ev("A.B", 1, AnyCountChanged),
            ev("A.B.C", 1, NewOrRemoved),
            ev("A.B.C", 1, AnyCountChanged),
        ]
    );
    assert!(events.iter().all(|x| x.entity == e));
    events.clear();
    c.update_tag_count(&tag("A.B.C"), -1, &reg, &mut events, e);
    assert_eq!(
        view(&events),
        vec![
            ev("A", 0, NewOrRemoved),
            ev("A", 0, AnyCountChanged),
            ev("A.B", 0, NewOrRemoved),
            ev("A.B", 0, AnyCountChanged),
            ev("A.B.C", 0, NewOrRemoved),
            ev("A.B.C", 0, AnyCountChanged),
        ]
    );
}

#[test]
fn second_increment_is_not_significant() {
    let reg = reg();
    let e = Entity::PLACEHOLDER;
    let mut events = Vec::new();
    let mut c = GameplayTagCountContainer::new();
    c.update_tag_count(&tag("A.B.C"), 1, &reg, &mut events, e);
    events.clear();
    assert!(!c.update_tag_count(&tag("A.B.C"), 2, &reg, &mut events, e));
    assert_eq!(
        view(&events),
        vec![ev("A", 3, AnyCountChanged), ev("A.B", 3, AnyCountChanged), ev("A.B.C", 3, AnyCountChanged)]
    );
    assert_eq!(c.get_explicit_tag_count(&tag("A.B.C")), 3);
}

#[test]
fn sibling_counts_aggregate() {
    let reg = reg();
    let e = Entity::PLACEHOLDER;
    let mut events = Vec::new();
    let mut c = GameplayTagCountContainer::new();
    c.update_tag_count(&tag("A.B.C"), 1, &reg, &mut events, e);
    c.update_tag_count(&tag("A.B.D"), 2, &reg, &mut events, e);
    assert_eq!(c.get_tag_count(&tag("A.B")), 3);
    assert_eq!(c.get_tag_count(&tag("A")), 3);
    assert!(c.has_matching_gameplay_tag(&tag("A")));
    assert!(!c.has_matching_gameplay_tag(&tag("D")));
    c.update_tag_count(&tag("A.B.C"), -1, &reg, &mut events, e);
    assert_eq!(c.get_tag_count(&tag("A.B")), 2);
    let explicit = c.get_explicit_tags();
    assert!(explicit.has_tag(&tag("A.B")));
    assert!(!explicit.has_tag_exact(&tag("A.B.C")));
}

#[test]
fn zero_delta_changes_nothing() {
    let reg = reg();
    let e = Entity::PLACEHOLDER;
    let mut events = Vec::new();
    let mut c = GameplayTagCountContainer::new();
    assert!(!c.update_tag_count(&tag("A"), 0, &reg, &mut events, e));
    assert!(!c.update_tag_count_deferred_parent_removal(&tag("A"), 0, &reg, &mut events, e));
    assert!(events.is_empty());
    assert_eq!(c.get_tag_count(&tag("A")), 0);
}

#[test]
fn lowering_a_tag_not_held_is_ignored() {
    let reg = reg();
    let e = Entity::PLACEHOLDER;
    let mut events = Vec::new();
    let mut c = GameplayTagCountContainer::new();
    assert!(!c.update_tag_count(&tag("A.B"), -1, &reg, &mut events, e));
    assert!(events.is_empty());
    assert_eq!(c.get_explicit_tag_count(&tag("A.B")), 0);
    assert_eq!(c.get_tag_count(&tag("A.B")), 0);
}

#[test]
fn unregistered_tag_counts_explicitly_only() {
    let reg = reg();
    let e = Entity::PLACEHOLDER;
    let mut events = Vec::new();
    let mut c = GameplayTagCountContainer::new();
    assert!(!c.update_tag_count(&tag("X.Y"), 2, &reg, &mut events, e));
    assert!(events.is_empty());
    assert_eq!(c.get_explicit_tag_count(&tag("X.Y")), 2);
    assert_eq!(c.get_tag_count(&tag("X.Y")), 0);
    assert!(c.get_explicit_tags().has_tag_exact(&tag("X.Y")));
}

#[test]
fn counts_floor_at_zero() {
    let reg = reg();
    let e = Entity::PLACEHOLDER;
    let mut events = Vec::new();
    let mut c = GameplayTagCountContainer::new();
    c.update_tag_count(&tag("D.C"), 2, &reg, &mut events, e);
    assert!(c.update_tag_count(&tag("D.C"), -5, &reg, &mut events, e));
    assert_eq!(c.get_explicit_tag_count(&tag("D.C")), 0);
    assert_eq!(c.get_tag_count(&tag("D")), 0);
    assert!(!c.get_explicit_tags().has_tag(&tag("D")));
}

#[test]
fn counts_saturate_at_max() {
    let reg = reg();
    let e = Entity::PLACEHOLDER;
    let mut events = Vec::new();
    let mut c = GameplayTagCountContainer::new();
    c.update_tag_count(&tag("D"), i32::MAX, &reg, &mut events, e);
    c.update_tag_count(&tag("D"), i32::MAX, &reg, &mut events, e);
    assert_eq!(c.get_tag_count(&tag("D")), i32::MAX);
    assert_eq!(c.get_explicit_tag_count(&tag("D")), i32::MAX);
}

#[test]
fn deferred_removal_leaves_parents() {
    let reg = reg();
    let e = Entity::PLACEHOLDER;
    let mut events = Vec::new();
    let mut c = GameplayTagCountContainer::new();
    c.update_tag_count(&tag("D.C.B"), 1, &reg, &mut events, e);
    assert!(c.update_tag_count_deferred_parent_removal(&tag("D.C.B"), -1, &reg, &mut events, e));
    assert!(!c.get_explicit_tags().has_tag_exact(&tag("D.C.B")));
    assert!(c.get_explicit_tags().has_tag(&tag("D.C")));
    c.fill_parent_tags(&reg);
    assert!(!c.get_explicit_tags().has_tag(&tag("D.C")));
}

#[test]
fn set_tag_count_moves_by_difference() {
    let reg = reg();
    let e = Entity::PLACEHOLDER;
    let mut events = Vec::new();
    let mut c = GameplayTagCountContainer::new();
    assert!(c.set_tag_count(&tag("A.C"), 4, &reg, &mut events, e));
    assert_eq!(c.get_explicit_tag_count(&tag("A.C")), 4);
    assert_eq!(c.get_tag_count(&tag("A")), 4);
    assert!(!c.set_tag_count(&tag("A.C"), 4, &reg, &mut events, e));
    assert!(!c.set_tag_count(&tag("A.C"), 1, &reg, &mut events, e));
    assert_eq!(c.get_tag_count(&tag("A")), 1);
    assert!(c.set_tag_count(&tag("A.C"), 0, &reg, &mut events, e));
    assert_eq!(c.get_tag_count(&tag("A")), 0);
    assert!(!c.get_explicit_tags().has_tag_exact(&tag("A.C")));
}

#[test]
fn container_count_batch() {
    let reg = reg();
    let e = Entity::PLACEHOLDER;
    let mut events = Vec::new();
    let mut c = GameplayTagCountContainer::new();
    let mut batch = GameplayTagContainer::new();
    batch.add_tag(tag("A.B.C"), &reg);
    batch.add_tag(tag("A.C"), &reg);
    c.update_tag_container_count(&batch, 1, &reg, &mut events, e);
    assert_eq!(c.get_tag_count(&tag("A")), 2);
    assert_eq!(c.get_tag_count(&tag("A.B")), 1);
    assert!(c.has_all_matching_gameplay_tags(&batch));
    c.update_tag_container_count(&batch, -1, &reg, &mut events, e);
    assert_eq!(c.get_tag_count(&tag("A")), 0);
    assert!(c.get_explicit_tags().is_empty());
    assert!(c.get_explicit_tags().parent_tags.is_empty());
    let before = events.len();
    c.update_tag_container_count(&batch, 0, &reg, &mut events, e);
    assert_eq!(events.len(), before);
}

#[test]
fn matching_queries_on_counts() {
    let reg = reg();
    let e = Entity::PLACEHOLDER;
    let mut events = Vec::new();
    let mut c = GameplayTagCountContainer::new();
    c.update_tag_count(&tag("A.B.C"), 1, &reg, &mut events, e);
    let empty = GameplayTagContainer::new();
    assert!(!c.has_all_matching_gameplay_tags(&empty));
    let mut q = GameplayTagContainer::new();
    q.add_tag(tag("A"), &reg);
    q.add_tag(tag("D"), &reg);
    assert!(!c.has_all_matching_gameplay_tags(&q));
    let mut q2 = GameplayTagContainer::new();
    q2.add_tag(tag("A.B"), &reg);
    assert!(c.has_all_matching_gameplay_tags(&q2));
    let mut d = GameplayTagCountContainer::new();
    d.update_tag_count(&tag("D"), 1, &reg, &mut events, e);
    assert!(d.has_any_matching_gameplay_tags(&q));
    let mut f = GameplayTagCountContainer::new();
    f.update_tag_count(&tag("A.C"), 1, &reg, &mut events, e);
    assert!(!f.has_any_matching_gameplay_tags(&empty));
}

#[test]
fn reset_clears_counts() {
    let reg = reg();
    let e = Entity::PLACEHOLDER;
    let mut events = Vec::new();
    let mut c = GameplayTagCountContainer::new();
    c.update_tag_count(&tag("A.B.C"), 3, &reg, &mut events, e);
    c.reset();
    assert_eq!(c.get_tag_count(&tag("A")), 0);
    assert_eq!(c.get_explicit_tag_count(&tag("A.B.C")), 0);
    assert!(c.get_explicit_tags().is_empty());
}
