use std::cmp::Ordering;

use bevy::ecs::entity::Entity;
use gameplay_tags::gameplay_tag::GameplayTag;
use gameplay_tags::gameplay_tag_container::GameplayTagContainer;
use gameplay_tags::gameplay_tag_requirements::GameplayTagRequirements;
use gameplay_tags::gameplay_tags_manager::{GameplayTagsManager, GameplayTagsSettings};
use gameplay_tags::gameplay_tags_plugin::GameplayTagsPlugin;

fn registry(labels: &[&str]) -> GameplayTagsManager {
    let names: Vec<String> = labels.iter().map(|s| s.to_string()).collect();
    GameplayTagsManager::from_tag_names(&names)
}

fn default_registry() -> GameplayTagsManager {
    registry(&["A.B.C", "A.B.D", "A.C", "D", "D.C", "D.C.B", "A.C.B"])
}

fn names(v: &[GameplayTag]) -> Vec<String> {
    v.iter().map(|t| t.get_tag_name().to_string()).collect()
}

fn tag(s: &str) -> GameplayTag {
    GameplayTag::new(s)
}

fn container_of(tags: &[&str], reg: &GameplayTagsManager) -> GameplayTagContainer {
    let mut c = GameplayTagContainer::new();
    for t in tags {
        c.add_tag(tag(t), reg);
    }
    c
}

fn strictly_increasing(v: &[String]) -> bool {
    v.windows(2).all(|w| w[0] < w[1])
}

#[test]
fn tag_equality_is_string_equality() {
    assert!(tag("A.B") == tag("A.B"));
    assert!(tag("A.B") != tag("A.C"));
    assert!(tag("") == tag(""));
    assert!(tag("A") != tag("A."));
    assert_eq!(tag("Combat.Melee.Sword").get_tag_name(), "Combat.Melee.Sword");
}

#[test]
fn tag_validity() {
    assert!(tag("A").is_valid());
    assert!(!tag("").is_valid());
}

#[test]
fn tag_order_is_lexicographic() {
    assert_eq!(tag("A").compare(&tag("A.B")), Ordering::Less);
    assert_eq!(tag("A.B").compare(&tag("A")), Ordering::Greater);
    assert_eq!(tag("A.B").compare(&tag("B")), Ordering::Less);
    assert_eq!(tag("B").compare(&tag("a")), Ordering::Less);
    assert_eq!(tag("A.C").compare(&tag("A.C")), Ordering::Equal);
    assert_eq!(tag("").compare(&tag("A")), Ordering::Less);
}

#[test]
fn tag_clone_keeps_path() {
    let t = tag("A.B.C");
    let c = t.clone();
    assert!(c == t);
    assert_eq!(c.get_tag_name(), "A.B.C");
}

#[test]
fn matches_tag_exact_needs_valid_equal_tag() {
    assert!(tag("A.B").matches_tag_exact(&tag("A.B")));
    assert!(!tag("A.B").matches_tag_exact(&tag("A")));
    assert!(!tag("").matches_tag_exact(&tag("")));
}

#[test]
fn matches_tag_follows_ancestors() {
    let reg = default_registry();
    assert!(tag("A.B.C").matches_tag(&tag("A"), &reg));
    assert!(tag("A.B.C").matches_tag(&tag("A.B"), &reg));
    assert!(tag("A.B.C").matches_tag(&tag("A.B.C"), &reg));
    assert!(!tag("A.B.C").matches_tag(&tag("A.B.D"), &reg));
    assert!(!tag("A").matches_tag(&tag("A.B"), &reg));
    assert!(!tag("X.Y").matches_tag(&tag("X"), &reg));
}

#[test]
fn matches_any_and_exact() {
    let reg = default_registry();
    let c = container_of(&["A", "D.C"], &reg);
    assert!(tag("A.B.C").matches_any(&c, &reg));
    assert!(tag("D.C.B").matches_any(&c, &reg));
    assert!(!tag("D").matches_any(&c, &reg));
    assert!(!tag("Q").matches_any(&c, &reg));
    assert!(tag("A").matches_any_exact(&c));
    assert!(!tag("A.B.C").matches_any_exact(&c));
    assert!(!tag("A").matches_any_exact(&GameplayTagContainer::new()));
}

#[test]
fn registry_closure_example() {
    let reg = registry(&["A.B.C", "A.B.D", "D.C"]);
    let abc = reg.get_single_tag_container(&tag("A.B.C")).unwrap();
    assert_eq!(names(&abc.gameplay_tags), vec!["A.B.C"]);
    assert_eq!(names(&abc.parent_tags), vec!["A", "A.B"]);
    let dc = reg.get_single_tag_container(&tag("D.C")).unwrap();
    assert_eq!(names(&dc.parent_tags), vec!["D"]);
    let ab = reg.get_single_tag_container(&tag("A.B")).unwrap();
    assert_eq!(names(&ab.gameplay_tags), vec!["A.B"]);
    assert_eq!(names(&ab.parent_tags), vec!["A"]);
    assert!(reg.get_single_tag_container(&tag("A")).is_some());
    assert!(reg.get_single_tag_container(&tag("D")).is_some());
    assert!(reg.get_single_tag_container(&tag("C")).is_none());
    assert!(reg.get_single_tag_container(&tag("A.C")).is_none());
    assert!(reg.is_explicit_tag(&tag("A.B.C")));
    assert!(reg.is_explicit_tag(&tag("D.C")));
    assert!(!reg.is_explicit_tag(&tag("A.B")));
    assert!(!reg.is_explicit_tag(&tag("D")));
}

#[test]
fn intermediate_label_listed_later_becomes_explicit() {
    let reg = registry(&["A.B.C", "A.B"]);
    assert!(reg.is_explicit_tag(&tag("A.B")));
    assert!(!reg.is_explicit_tag(&tag("A")));
    assert_eq!(names(&reg.get_single_tag_container(&tag("A.B")).unwrap().parent_tags), vec!["A"]);
}

#[test]
fn registry_odd_labels() {
    let reg = registry(&["", ".X", "Y..Z"]);
    assert_eq!(reg.get_single_tag_container(&tag("")).unwrap().parent_tags.len(), 0);
    assert_eq!(names(&reg.get_single_tag_container(&tag(".X")).unwrap().parent_tags), vec![""]);
    assert_eq!(names(&reg.get_single_tag_container(&tag("Y..Z")).unwrap().parent_tags), vec!["Y", "Y."]);
}

#[test]
fn request_parents_flattens_entry() {
    let reg = default_registry();
    let r = reg.request_gameplay_tag_parents(&tag("D.C.B"));
    assert_eq!(names(&r.gameplay_tags), vec!["D", "D.C", "D.C.B"]);
    assert!(r.parent_tags.is_empty());
    let none = reg.request_gameplay_tag_parents(&tag("Nope"));
    assert!(none.is_empty());
}

#[test]
fn hierarchical_containment() {
    let reg = default_registry();
    let mut c = GameplayTagContainer::new();
    c.add_tag(tag("A.B.C"), &reg);
    assert!(c.has_tag(&tag("A")));
    assert!(c.has_tag(&tag("A.B")));
    assert!(c.has_tag(&tag("A.B.C")));
    assert!(!c.has_tag_exact(&tag("A")));
    assert!(!c.has_tag_exact(&tag("A.B")));
    assert!(c.has_tag_exact(&tag("A.B.C")));
    assert!(!c.has_tag(&tag("A.B.D")));
}

#[test]
fn vacuous_truth() {
    let reg = default_registry();
    let empty = GameplayTagContainer::new();
    let c = container_of(&["A.B.C"], &reg);
    assert!(c.has_all(&empty));
    assert!(!c.has_any(&empty));
    assert!(c.has_all_exact(&empty));
    assert!(!c.has_any_exact(&empty));
    assert!(empty.has_all(&empty));
    assert!(!empty.has_any(&empty));
}

#[test]
fn has_any_and_has_all() {
    let reg = default_registry();
    let c = container_of(&["A.B.C", "D"], &reg);
    let q1 = container_of(&["A", "Q"], &reg);
    let q2 = container_of(&["A", "D"], &reg);
    assert!(c.has_any(&q1));
    assert!(!c.has_any_exact(&q1));
    assert!(!c.has_all(&q1));
    assert!(c.has_all(&q2));
    assert!(!c.has_all_exact(&q2));
    let q3 = container_of(&["A.B.C", "D"], &reg);
    assert!(c.has_all_exact(&q3));
    assert!(c.has_any_exact(&q3));
}

#[test]
fn add_tag_ignores_invalid_and_duplicates() {
    let reg = default_registry();
    let mut c = GameplayTagContainer::new();
    c.add_tag(tag(""), &reg);
    assert!(c.is_empty());
    c.add_tag(tag("A.B.C"), &reg);
    c.add_tag(tag("A.B.C"), &reg);
    assert_eq!(names(&c.gameplay_tags), vec!["A.B.C"]);
    assert_eq!(names(&c.parent_tags), vec!["A", "A.B"]);
    c.add_tag_fast(tag(""), &reg);
    assert_eq!(names(&c.gameplay_tags), vec!["", "A.B.C"]);
}

#[test]
fn unregistered_tag_has_no_parents() {
    let reg = default_registry();
    let mut c = GameplayTagContainer::new();
    c.add_tag(tag("X.Y"), &reg);
    assert!(c.has_tag_exact(&tag("X.Y")));
    assert!(!c.has_tag(&tag("X")));
    assert!(c.parent_tags.is_empty());
}

#[test]
fn sortedness_after_adds_and_removes() {
    let reg = default_registry();
    let mut c = GameplayTagContainer::new();
    for t in ["D.C.B", "A.C", "A.B.D", "D", "A.B.C", "A.C.B", "Z", "B"] {
        c.add_tag(tag(t), &reg);
        assert!(strictly_increasing(&names(&c.gameplay_tags)));
        assert!(strictly_increasing(&names(&c.parent_tags)));
    }
    assert_eq!(names(&c.gameplay_tags), vec!["A.B.C", "A.B.D", "A.C", "A.C.B", "B", "D", "D.C.B", "Z"]);
    assert_eq!(names(&c.parent_tags), vec!["A", "A.B", "A.C", "D", "D.C"]);
    assert!(c.remove_tag(&tag("A.C.B"), false, &reg));
    assert!(!c.remove_tag(&tag("A.C.B"), false, &reg));
    assert!(strictly_increasing(&names(&c.gameplay_tags)));
    assert_eq!(names(&c.parent_tags), vec!["A", "A.B", "D", "D.C"]);
}

#[test]
fn remove_tag_deferred_then_filled() {
    let reg = default_registry();
    let mut c = container_of(&["A.B.C", "D"], &reg);
    assert!(c.remove_tag(&tag("A.B.C"), true, &reg));
    assert_eq!(names(&c.gameplay_tags), vec!["D"]);
    assert_eq!(names(&c.parent_tags), vec!["A", "A.B"]);
    c.fill_parent_tags(&reg);
    assert!(c.parent_tags.is_empty());
}

#[test]
fn remove_keeps_shared_ancestor() {
    let reg = default_registry();
    let mut c = container_of(&["A.B.C", "A.B.D"], &reg);
    assert!(c.remove_tag(&tag("A.B.C"), false, &reg));
    assert_eq!(names(&c.parent_tags), vec!["A", "A.B"]);
}

#[test]
fn remove_tags_batch() {
    let reg = default_registry();
    let mut c = container_of(&["A.B.C", "A.C", "D.C"], &reg);
    let gone = container_of(&["A.B.C", "D.C", "Q"], &reg);
    c.remove_tags(gone, &reg);
    assert_eq!(names(&c.gameplay_tags), vec!["A.C"]);
    assert_eq!(names(&c.parent_tags), vec!["A"]);
    let none = container_of(&["Q"], &reg);
    c.remove_tags(none, &reg);
    assert_eq!(names(&c.gameplay_tags), vec!["A.C"]);
}

#[test]
fn fill_parent_tags_idempotent() {
    let reg = default_registry();
    let mut c = container_of(&["A.B.C", "D.C.B"], &reg);
    c.fill_parent_tags(&reg);
    let once = names(&c.parent_tags);
    c.fill_parent_tags(&reg);
    assert_eq!(names(&c.parent_tags), once);
    assert_eq!(once, vec!["A", "A.B", "D", "D.C"]);
}

#[test]
fn reset_clears_container() {
    let reg = default_registry();
    let mut c = container_of(&["A.B.C"], &reg);
    c.reset();
    assert!(c.is_empty());
    assert!(c.parent_tags.is_empty());
}

#[test]
fn append_tags_adds_all() {
    let reg = default_registry();
    let mut c = container_of(&["D"], &reg);
    let other = container_of(&["A.B.C", "D"], &reg);
    c.append_tags(&other, &reg);
    assert_eq!(names(&c.gameplay_tags), vec!["A.B.C", "D"]);
    assert_eq!(names(&c.parent_tags), vec!["A", "A.B"]);
}

#[test]
fn append_matches_tags_adds_matching() {
    let reg = default_registry();
    let mut c = GameplayTagContainer::new();
    let a = container_of(&["A.B.C", "A.C", "D.C"], &reg);
    let b = container_of(&["A.B"], &reg);
    c.append_matches_tags(&a, &b, &reg);
    assert_eq!(names(&c.gameplay_tags), vec!["A.B.C"]);
    assert_eq!(names(&c.parent_tags), vec!["A", "A.B"]);
}

#[test]
fn filter_hierarchical_and_exact() {
    let reg = default_registry();
    let c = container_of(&["A.B.C", "A.C", "D.C"], &reg);
    let other = container_of(&["A", "D.C"], &reg);
    let f = c.filter(&other, &reg);
    assert_eq!(names(&f.gameplay_tags), vec!["A.B.C", "A.C", "D.C"]);
    assert_eq!(names(&f.parent_tags), vec!["A", "A.B", "D"]);
    let fe = c.filter_exact(&other, &reg);
    assert_eq!(names(&fe.gameplay_tags), vec!["D.C"]);
    assert_eq!(names(&fe.parent_tags), vec!["D"]);
    let none = c.filter(&GameplayTagContainer::new(), &reg);
    assert!(none.is_empty());
}

#[test]
fn gameplay_tag_parents_view() {
    let reg = default_registry();
    let c = container_of(&["A.B.C", "D"], &reg);
    let p = c.get_gameplay_tag_parents();
    assert_eq!(names(&p.gameplay_tags), vec!["A", "A.B", "A.B.C", "D"]);
    assert!(p.parent_tags.is_empty());
}

#[test]
fn default_container_is_empty() {
    let c = GameplayTagContainer::default();
    assert!(c.is_empty());
    assert!(c.parent_tags.is_empty());
}

#[test]
fn requirements_gate() {
    let reg = default_registry();
    let req = GameplayTagRequirements::new(container_of(&["A"], &reg), container_of(&["D"], &reg));
    let ok = container_of(&["A.B.C"], &reg);
    let blocked = container_of(&["A.B.C", "D.C"], &reg);
    let missing = container_of(&["D.C"], &reg);
    assert!(req.requirements_met(&ok, true));
    assert!(!req.requirements_met(&ok, false));
    assert!(!req.requirements_met(&blocked, true));
    assert!(!req.requirements_met(&missing, true));
    let open = GameplayTagRequirements::default();
    assert!(open.requirements_met(&GameplayTagContainer::new(), true));
}

#[test]
fn requirements_is_empty_ands_all_parts() {
    let reg = default_registry();
    let full = GameplayTagRequirements::new(container_of(&["A"], &reg), container_of(&["D"], &reg));
    assert!(full.is_empty(true));
    assert!(!full.is_empty(false));
    let only_require = GameplayTagRequirements::new(container_of(&["A"], &reg), GameplayTagContainer::new());
    assert!(!only_require.is_empty(true));
    assert!(!GameplayTagRequirements::default().is_empty(true));
}

#[test]
fn settings_and_plugin() {
    let s = GameplayTagsSettings::new();
    assert_eq!(s.data_path, "gameplay/tag_settings.json");
    assert!(s.json_data.contains("\"A.B.C\""));
    let f = GameplayTagsSettings::with_data_path("x.json".to_string());
    assert!(f.json_data.is_empty());
    assert_eq!(f.data_path, "x.json");
    assert!(GameplayTagsPlugin::new().data_path.is_none());
    assert_eq!(GameplayTagsPlugin::with_data_path("p.json".to_string()).data_path, Some("p.json".to_string()));
}

#[test]
fn entity_placeholder_is_usable() {
    let e = Entity::PLACEHOLDER;
    assert_eq!(e, Entity::PLACEHOLDER);
}
