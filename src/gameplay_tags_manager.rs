use bevy::platform::collections::HashMap;
use vstd::prelude::*;

use crate::gameplay_tag::{lex_less, lex_less_from, GameplayTag};
use crate::gameplay_tag_container::{
    insert_sorted, lemma_path_set_prefix_step, path_set, search_tag, strictly_sorted, tags_view, GameplayTagContainer,
};
use crate::tag_maps::{container_entries, container_get, container_insert, new_container_map};

verus! {

/// The ancestors of a path: each proper prefix that ends right before a `'.'`
/// (`"A"` and `"A.B"` for `"A.B.C"`).
pub open spec fn path_ancestors(p: Seq<char>) -> Set<Seq<char>> {
    Set::new(|q: Seq<char>| exists|i: int| 0 <= i < p.len() && p[i] == '.' && q == p.subrange(0, i))
}

/// A path together with its ancestors.
pub open spec fn path_closure(p: Seq<char>) -> Set<Seq<char>> {
    path_ancestors(p).insert(p)
}

/// Every path that a list of labels brings into the registry: each label and its ancestors.
pub open spec fn registered_paths(labels: Seq<Seq<char>>) -> Set<Seq<char>> {
    Set::new(|q: Seq<char>| exists|k: int| 0 <= k < labels.len() && #[trigger] path_closure(labels[k]).contains(q))
}

/// The ancestors of `p` that end before position `n`.
pub open spec fn ancestors_before(p: Seq<char>, n: int) -> Set<Seq<char>> {
    Set::new(|q: Seq<char>| exists|i: int| 0 <= i < n && i < p.len() && p[i] == '.' && q == p.subrange(0, i))
}

/// The registry entry of a path: the path itself, explicitly, with its ancestors implied.
pub open spec fn entry_of(p: Seq<char>, c: GameplayTagContainer) -> bool {
    &&& c.wf()
    &&& c.explicit_view() == seq![p]
    &&& c.parent_set() == path_ancestors(p)
}

pub proof fn lemma_proper_prefix_less(q: Seq<char>, p: Seq<char>, i: int)
    requires
        0 <= i <= q.len() < p.len(),
        q == p.subrange(0, q.len() as int),
    ensures
        lex_less_from(q, p, i),
    decreases q.len() - i,
{
    if i < q.len() {
        assert(q[i] == p[i]);
        lemma_proper_prefix_less(q, p, i + 1);
    }
}

/// An ancestor of an ancestor of `p` is an ancestor of `p`.
pub proof fn lemma_ancestors_of_prefix(p: Seq<char>, i: int)
    requires
        0 <= i <= p.len(),
    ensures
        path_ancestors(p.subrange(0, i)) == ancestors_before(p, i),
{
    let q = p.subrange(0, i);
    assert forall|r: Seq<char>| path_ancestors(q).contains(r) <==> ancestors_before(p, i).contains(r) by {
        if path_ancestors(q).contains(r) {
            let j = choose|j: int| 0 <= j < q.len() && q[j] == '.' && r == q.subrange(0, j);
            assert(r =~= p.subrange(0, j));
        }
        if ancestors_before(p, i).contains(r) {
            let j = choose|j: int| 0 <= j < i && j < p.len() && p[j] == '.' && r == p.subrange(0, j);
            assert(q[j] == '.');
            assert(r =~= q.subrange(0, j));
        }
    }
    assert(path_ancestors(q) =~= ancestors_before(p, i));
}

/// What the entry of a registered path holds: the path and its ancestors.
pub proof fn lemma_entry_holds(reg: GameplayTagsManager, p: Seq<char>)
    requires
        reg.wf(),
        reg.is_registered(p),
    ensures
        reg.entries()[p].wf(),
        reg.entries()[p].explicit_set() == set![p],
        forall|x: Seq<char>| #[trigger] reg.entries()[p].holds(x) <==> path_closure(p).contains(x),
{
    let c = reg.entries()[p];
    assert(entry_of(p, c));
    assert(c.explicit_view()[0] == p);
    assert(c.explicit_set() =~= set![p]);
}

/// The hierarchy of every known tag: for each registered path, its precomputed container.
/// Built once from a list of labels and read-only afterwards.
pub struct GameplayTagsManager {
    pub tag_map: HashMap<String, GameplayTagContainer>,
    /// The labels that were listed, as opposed to ancestors that only a listed label brought.
    pub explicit_tags: Vec<GameplayTag>,
}

impl GameplayTagsManager {
    pub open spec fn entries(&self) -> Map<Seq<char>, GameplayTagContainer> {
        container_entries(self.tag_map)
    }

    pub open spec fn is_registered(&self, p: Seq<char>) -> bool {
        self.entries().contains_key(p)
    }

    /// Each entry is the closure of its path, and each ancestor of a registered path is
    /// registered.
    pub open spec fn wf(&self) -> bool {
        &&& strictly_sorted(tags_view(self.explicit_tags@))
        &&& forall|p: Seq<char>| #[trigger] self.entries().contains_key(p) ==> {
            &&& entry_of(p, self.entries()[p])
            &&& forall|q: Seq<char>| path_ancestors(p).contains(q) ==> self.entries().contains_key(q)
        }
    }

    /// The ancestors that the registry gives a path: none for a path it does not know.
    pub open spec fn parents_of(&self, p: Seq<char>) -> Set<Seq<char>> {
        if self.is_registered(p) {
            path_ancestors(p)
        } else {
            Set::empty()
        }
    }

    /// The precomputed entry of a registered tag.
    pub fn get_single_tag_container(&self, tag: &GameplayTag) -> (r: Option<&GameplayTagContainer>)
        ensures
            r == (if self.is_registered(tag@) {
                Some(&self.entries()[tag@])
            } else {
                None
            }),
    {
        container_get(&self.tag_map, tag.get_tag_name())
    }

    /// Every tag that `tag` implies, itself included, as the explicit tags of a new
    /// container; an empty container for a tag that the registry does not know.
    pub fn request_gameplay_tag_parents(&self, tag: &GameplayTag) -> (r: GameplayTagContainer)
        requires
            self.wf(),
        ensures
            r.wf(),
            r.explicit_set() == (if self.is_registered(tag@) {
                path_closure(tag@)
            } else {
                Set::<Seq<char>>::empty()
            }),
            r.parent_view().len() == 0,
    {
        match self.get_single_tag_container(tag) {
            Some(exist_tags) => {
                proof {
                    lemma_entry_holds(*self, tag@);
                    assert(set![tag@].union(path_ancestors(tag@)) =~= path_closure(tag@));
                }
                exist_tags.get_gameplay_tag_parents()
            },
            None => {
                let r = GameplayTagContainer::new();
                assert(r.explicit_set() =~= Set::<Seq<char>>::empty());
                r
            },
        }
    }

    /// Builds the registry from a list of labels: every label and every ancestor of one gets
    /// its entry.
    pub fn from_tag_names(tag_names: &Vec<String>) -> (r: GameplayTagsManager)
        ensures
            r.wf(),
            r.entries().dom() == registered_paths(tag_names@.map_values(|s: String| s@)),
            path_set(tags_view(r.explicit_tags@)) == path_set(tag_names@.map_values(|s: String| s@)),
    {
        let ghost labels = tag_names@.map_values(|s: String| s@);
        let mut manager = GameplayTagsManager { tag_map: new_container_map(), explicit_tags: Vec::new() };
        assert(manager.entries().dom() =~= Set::<Seq<char>>::empty());
        assert(tags_view(manager.explicit_tags@) =~= Seq::<Seq<char>>::empty());
        assert(path_set(tags_view(manager.explicit_tags@)) =~= path_set(labels.subrange(0, 0)));
        let mut k: usize = 0;
        while k < tag_names.len()
            invariant
                labels == tag_names@.map_values(|s: String| s@),
                k <= tag_names@.len(),
                manager.wf(),
                manager.entries().dom() == registered_paths(labels.subrange(0, k as int)),
                path_set(tags_view(manager.explicit_tags@)) == path_set(labels.subrange(0, k as int)),
            decreases tag_names.len() - k,
        {
            manager.add_tag_node(tag_names[k].as_str());
            proof {
                lemma_path_set_prefix_step(labels, k as int);
                let before = labels.subrange(0, k as int);
                let after = labels.subrange(0, k + 1);
                assert forall|q: Seq<char>| registered_paths(after).contains(q) <==> registered_paths(before).union(path_closure(labels[k as int])).contains(q) by {
                    if registered_paths(after).contains(q) {
                        let j = choose|j: int| 0 <= j < after.len() && #[trigger] path_closure(after[j]).contains(q);
                        if j < k {
                            assert(before[j] == after[j]);
                        }
                    }
                    if registered_paths(before).contains(q) {
                        let j = choose|j: int| 0 <= j < before.len() && #[trigger] path_closure(before[j]).contains(q);
                        assert(before[j] == after[j]);
                    }
                    if path_closure(labels[k as int]).contains(q) {
                        assert(after[k as int] == labels[k as int]);
                    }
                }
                assert(registered_paths(after) =~= registered_paths(before).union(path_closure(labels[k as int])));
            }
            k = k + 1;
        }
        assert(labels.subrange(0, tag_names@.len() as int) =~= labels);
        manager
    }

    /// The tag was listed itself, not only brought in as an ancestor of a listed label.
    pub fn is_explicit_tag(&self, tag: &GameplayTag) -> (r: bool)
        requires
            self.wf(),
        ensures
            r == path_set(tags_view(self.explicit_tags@)).contains(tag@),
    {
        match search_tag(&self.explicit_tags, tag) {
            Ok(i) => {
                assert(tags_view(self.explicit_tags@)[i as int] == tag@);
                true
            },
            Err(_) => false,
        }
    }

    /// Registers a label: the label and each of its ancestors that is not known yet.
    fn add_tag_node(&mut self, tag_name: &str)
        requires
            old(self).wf(),
        ensures
            final(self).wf(),
            final(self).entries().dom() == old(self).entries().dom().union(path_closure(tag_name@)),
            path_set(tags_view(final(self).explicit_tags@)) == path_set(tags_view(old(self).explicit_tags@)).insert(tag_name@),
    {
        let ghost p = tag_name@;
        let n = tag_name.unicode_len();
        let mut i: usize = 0;
        while i < n
            invariant
                p == tag_name@,
                n == p.len(),
                i <= n,
                self.wf(),
                self.explicit_tags == old(self).explicit_tags,
                self.entries().dom() == old(self).entries().dom().union(ancestors_before(p, i as int)),
            decreases n - i,
        {
            if tag_name.get_char(i) == '.' {
                let prefix = tag_name.substring_char(0, i);
                proof {
                    lemma_ancestors_of_prefix(p, i as int);
                }
                self.add_path(prefix);
                proof {
                    assert forall|r: Seq<char>| ancestors_before(p, i + 1).contains(r) <==> ancestors_before(p, i as int).insert(prefix@).contains(r) by {
                        if ancestors_before(p, i + 1).contains(r) {
                            let j = choose|j: int| 0 <= j < i + 1 && j < p.len() && p[j] == '.' && r == p.subrange(0, j);
                            if j < i {
                                assert(ancestors_before(p, i as int).contains(r));
                            }
                        }
                    }
                    assert(ancestors_before(p, i + 1) =~= ancestors_before(p, i as int).insert(prefix@));
                    assert(self.entries().dom() =~= old(self).entries().dom().union(ancestors_before(p, i + 1)));
                }
            } else {
                proof {
                    assert(ancestors_before(p, i + 1) =~= ancestors_before(p, i as int));
                }
            }
            i = i + 1;
        }
        proof {
            assert(p.subrange(0, n as int) =~= p);
            lemma_ancestors_of_prefix(p, n as int);
        }
        self.add_path(tag_name);
        assert(self.entries().dom() =~= old(self).entries().dom().union(path_closure(p)));
        insert_sorted(&mut self.explicit_tags, GameplayTag::new(tag_name));
    }

    /// Gives `path` its entry unless it has one; its ancestors must be registered already.
    fn add_path(&mut self, path: &str)
        requires
            old(self).wf(),
            forall|q: Seq<char>| path_ancestors(path@).contains(q) ==> old(self).is_registered(q),
        ensures
            final(self).wf(),
            final(self).entries().dom() == old(self).entries().dom().insert(path@),
            final(self).explicit_tags == old(self).explicit_tags,
    {
        if container_get(&self.tag_map, path).is_none() {
            let container = Self::build_complete_tag_container(path);
            let key = path.to_string();
            assert(key@ == path@);
            let ghost before = self.entries();
            container_insert(&mut self.tag_map, key, container);
            proof {
                let after = self.entries();
                assert forall|p: Seq<char>| #[trigger] after.contains_key(p) implies {
                    &&& entry_of(p, after[p])
                    &&& forall|q: Seq<char>| path_ancestors(p).contains(q) ==> after.contains_key(q)
                } by {
                    if p != path@ {
                        assert(before.contains_key(p));
                        assert(entry_of(p, before[p]));
                        assert(after[p] == before[p]);
                    } else {
                        assert(after[p] == container);
                    }
                    assert forall|q: Seq<char>| path_ancestors(p).contains(q) implies after.contains_key(q) by {
                        if p != path@ {
                            assert(before.contains_key(q));
                        } else {
                            assert(old(self).is_registered(q));
                        }
                    }
                }
            }
        }
        assert(self.entries().dom() =~= old(self).entries().dom().insert(path@));
    }

    /// The container for `full_tag_name`: the path explicitly, each ancestor implied.
    pub fn build_complete_tag_container(full_tag_name: &str) -> (r: GameplayTagContainer)
        ensures
            entry_of(full_tag_name@, r),
    {
        let ghost p = full_tag_name@;
        let mut container = GameplayTagContainer::new();
        container.gameplay_tags.push(GameplayTag::new(full_tag_name));
        let n = full_tag_name.unicode_len();
        let mut i: usize = 0;
        while i < n
            invariant
                p == full_tag_name@,
                n == p.len(),
                i <= n,
                container.explicit_view() == seq![p],
                strictly_sorted(container.parent_view()),
                container.parent_set() == ancestors_before(p, i as int),
                forall|k: int| 0 <= k < container.parent_view().len() ==>
                    (#[trigger] container.parent_view()[k]).len() < i
                    && container.parent_view()[k] == p.subrange(0, container.parent_view()[k].len() as int),
            decreases n - i,
        {
            if full_tag_name.get_char(i) == '.' {
                let ghost old_view = container.parent_view();
                let parent = GameplayTag::new(full_tag_name.substring_char(0, i));
                let ghost q = parent@;
                container.parent_tags.push(parent);
                proof {
                    let s = container.parent_view();
                    assert(s =~= old_view.push(q));
                    assert forall|a: int, b: int| 0 <= a < b < s.len() implies lex_less(#[trigger] s[a], #[trigger] s[b]) by {
                        if b == s.len() - 1 {
                            assert(s[a] == old_view[a]);
                            assert(s[a] =~= q.subrange(0, s[a].len() as int));
                            lemma_proper_prefix_less(s[a], q, 0);
                        } else {
                            assert(s[a] == old_view[a] && s[b] == old_view[b]);
                        }
                    }
                    assert forall|r: Seq<char>| path_set(s).contains(r) <==> ancestors_before(p, i + 1).contains(r) by {
                        if path_set(s).contains(r) {
                            let k = choose|k: int| 0 <= k < s.len() && s[k] == r;
                            if k < old_view.len() {
                                assert(old_view[k] == r);
                                assert(path_set(old_view).contains(r));
                            }
                        }
                        if ancestors_before(p, i + 1).contains(r) {
                            let j = choose|j: int| 0 <= j < i + 1 && j < p.len() && p[j] == '.' && r == p.subrange(0, j);
                            if j < i {
                                assert(ancestors_before(p, i as int).contains(r));
                                let k = choose|k: int| 0 <= k < old_view.len() && old_view[k] == r;
                                assert(s[k] == r);
                            } else {
                                assert(s[s.len() - 1] == r);
                            }
                        }
                    }
                    assert(container.parent_set() =~= ancestors_before(p, i + 1));
                }
            } else {
                proof {
                    assert(container.parent_set() =~= ancestors_before(p, i + 1));
                }
            }
            i = i + 1;
        }
        assert(ancestors_before(p, n as int) =~= path_ancestors(p));
        container
    }
}

/// Where the label list comes from: inline JSON (`json_data`) when it is not empty, else the
/// file at `data_path`.
pub struct GameplayTagsSettings {
    pub json_data: String,
    pub data_path: String,
}

impl Default for GameplayTagsSettings {
    fn default() -> (r: GameplayTagsSettings)
        ensures
            r.json_data@ == DEFAULT_TAG_JSON@,
            r.data_path@ == DEFAULT_DATA_PATH@,
    {
        GameplayTagsSettings { json_data: DEFAULT_TAG_JSON.to_string(), data_path: DEFAULT_DATA_PATH.to_string() }
    }
}

impl GameplayTagsSettings {
    /// The built-in settings.
    pub fn new() -> (r: GameplayTagsSettings)
        ensures
            r.json_data@ == DEFAULT_TAG_JSON@,
            r.data_path@ == DEFAULT_DATA_PATH@,
    {
        GameplayTagsSettings::default()
    }

    /// Settings that load the label list from the file at `data_path`.
    pub fn with_data_path(data_path: String) -> (r: GameplayTagsSettings)
        ensures
            r.json_data@.len() == 0,
            r.data_path == data_path,
    {
        GameplayTagsSettings { json_data: String::new(), data_path }
    }
}

/// The built-in label list.
pub const DEFAULT_TAG_JSON: &'static str = r#"
            [
                { "tag_name": "A.B.C", "description": "Description of A.B.C" },
                { "tag_name": "A.B.D", "description": "Description of A.B.D" },
                { "tag_name": "A.C", "description": "Description of A.C" },
                { "tag_name": "D", "description": "Description of D" },
                { "tag_name": "D.C", "description": "Description of D" },
                { "tag_name": "D.C.B", "description": "Description of D" },
                { "tag_name": "A.C.B", "description": "Description of D" }
            ]
            "#;

/// The file that the label list is read from when no inline list is given.
pub const DEFAULT_DATA_PATH: &'static str = "gameplay/tag_settings.json";

} // verus!
