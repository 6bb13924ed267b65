use std::cmp::Ordering;
use vstd::prelude::*;
use vstd::std_specs::cmp::PartialEqSpec;

use crate::gameplay_tag_container::{matches_any_spec, GameplayTagContainer};
use crate::gameplay_tags_manager::{lemma_entry_holds, path_closure, GameplayTagsManager};

verus! {

/// Strict lexicographic order on character sequences, comparing from position `i` on.
pub open spec fn lex_less_from(a: Seq<char>, b: Seq<char>, i: int) -> bool
    decreases a.len() - i,
{
    if i < 0 || i >= a.len() {
        0 <= i < b.len()
    } else if i >= b.len() {
        false
    } else if a[i] != b[i] {
        (a[i] as int) < (b[i] as int)
    } else {
        lex_less_from(a, b, i + 1)
    }
}

/// Strict lexicographic order on tag paths: the order of `str`.
pub open spec fn lex_less(a: Seq<char>, b: Seq<char>) -> bool {
    lex_less_from(a, b, 0)
}

pub proof fn lemma_lex_irreflexive_from(a: Seq<char>, i: int)
    requires
        0 <= i,
    ensures
        !lex_less_from(a, a, i),
    decreases a.len() - i,
{
    if i < a.len() {
        lemma_lex_irreflexive_from(a, i + 1);
    }
}

pub proof fn lemma_lex_total_from(a: Seq<char>, b: Seq<char>, i: int)
    requires
        0 <= i <= a.len(),
        i <= b.len(),
    ensures
        lex_less_from(a, b, i) || lex_less_from(b, a, i) || (a.len() == b.len() && forall|j: int|
            i <= j < a.len() ==> a[j] == b[j]),
    decreases a.len() - i,
{
    if i < a.len() && i < b.len() {
        if a[i] == b[i] {
            lemma_lex_total_from(a, b, i + 1);
            if a.len() == b.len() && forall|j: int| i + 1 <= j < a.len() ==> a[j] == b[j] {
                assert forall|j: int| i <= j < a.len() implies a[j] == b[j] by {
                    if j == i {
                    }
                }
            }
        } else {
            assert((a[i] as int) != (b[i] as int));
        }
    }
}

pub proof fn lemma_lex_asymmetric_from(a: Seq<char>, b: Seq<char>, i: int)
    requires
        0 <= i,
        lex_less_from(a, b, i),
    ensures
        !lex_less_from(b, a, i),
    decreases a.len() - i,
{
    if i < a.len() && i < b.len() && a[i] == b[i] {
        lemma_lex_asymmetric_from(a, b, i + 1);
    }
}

pub proof fn lemma_lex_transitive_from(a: Seq<char>, b: Seq<char>, c: Seq<char>, i: int)
    requires
        0 <= i,
        lex_less_from(a, b, i),
        lex_less_from(b, c, i),
    ensures
        lex_less_from(a, c, i),
    decreases a.len() - i,
{
    if i < a.len() && i < b.len() && i < c.len() && a[i] == b[i] && b[i] == c[i] {
        lemma_lex_transitive_from(a, b, c, i + 1);
    }
}

/// Tags made from two strings are equal exactly when the strings are: `new` keeps the path
/// and `==` compares paths.
pub proof fn lemma_tag_identity(t: &str, t2: &str, a: GameplayTag, b: GameplayTag)
    requires
        a@ == t@,
        b@ == t2@,
    ensures
        a.eq_spec(&b) <==> t@ == t2@,
{
}

/// A hierarchical label such as `"Combat.Melee.Sword"`, identified by its full path.
#[derive(Debug, Hash, PartialOrd, Ord)]
pub struct GameplayTag {
    tag_name: String,
    chars: Vec<char>,
}

impl View for GameplayTag {
    type V = Seq<char>;

    closed spec fn view(&self) -> Seq<char> {
        self.chars@
    }
}

impl GameplayTag {
    #[verifier::type_invariant]
    spec fn name_matches_chars(&self) -> bool {
        self.chars@ == self.tag_name@
    }

    /// The tag whose path is `full_name`; any string, the empty one included, is a tag.
    pub fn new(full_name: &str) -> (r: GameplayTag)
        ensures
            r@ == full_name@,
    {
        let n = full_name.unicode_len();
        let mut chars: Vec<char> = Vec::new();
        let mut i: usize = 0;
        while i < n
            invariant
                n == full_name@.len(),
                i <= n,
                chars@ == full_name@.subrange(0, i as int),
            decreases n - i,
        {
            chars.push(full_name.get_char(i));
            i = i + 1;
        }
        assert(chars@ =~= full_name@);
        GameplayTag { tag_name: full_name.to_string(), chars }
    }

    /// The full path of the tag.
    pub fn get_tag_name(&self) -> (r: &str)
        ensures
            r@ == self@,
    {
        proof {
            use_type_invariant(self);
        }
        self.tag_name.as_str()
    }

    /// A tag is valid when its path is not empty.
    pub fn is_valid(&self) -> (r: bool)
        ensures
            r == (self@.len() > 0),
    {
        self.chars.len() > 0
    }

    /// Three-way comparison of the two paths in lexicographic order.
    pub fn compare(&self, other: &GameplayTag) -> (r: Ordering)
        ensures
            r == Ordering::Less <==> lex_less(self@, other@),
            r == Ordering::Greater <==> lex_less(other@, self@),
            r == Ordering::Equal <==> self@ == other@,
    {
        let a = &self.chars;
        let b = &other.chars;
        let mut i: usize = 0;
        while i < a.len() && i < b.len()
            invariant
                a@ == self@,
                b@ == other@,
                i <= a@.len(),
                i <= b@.len(),
                forall|j: int| 0 <= j < i ==> a@[j] == b@[j],
                lex_less(a@, b@) == lex_less_from(a@, b@, i as int),
                lex_less(b@, a@) == lex_less_from(b@, a@, i as int),
            decreases a.len() - i,
        {
            if a[i] != b[i] {
                proof {
                    lemma_lex_total_from(a@, b@, i as int);
                    assert(a@ != b@);
                }
                if a[i] < b[i] {
                    assert(lex_less_from(a@, b@, i as int));
                    proof {
                        lemma_lex_asymmetric_from(a@, b@, i as int);
                    }
                    return Ordering::Less;
                } else {
                    assert(lex_less_from(b@, a@, i as int));
                    proof {
                        lemma_lex_asymmetric_from(b@, a@, i as int);
                    }
                    return Ordering::Greater;
                }
            }
            i = i + 1;
        }
        proof {
            if a@.len() == b@.len() {
                assert(a@ =~= b@);
                lemma_lex_irreflexive_from(a@, 0);
            } else {
                assert(a@ != b@);
            }
        }
        if a.len() < b.len() {
            Ordering::Less
        } else if b.len() < a.len() {
            Ordering::Greater
        } else {
            Ordering::Equal
        }
    }

    /// True when `tag_to_check` is this tag or one of its ancestors, as the registry knows
    /// them; false for a tag that the registry does not know.
    pub fn matches_tag(
        &self,
        tag_to_check: &GameplayTag,
        tags_manager: &GameplayTagsManager,
    ) -> (r: bool)
        requires
            tags_manager.wf(),
        ensures
            r == (tags_manager.is_registered(self@) && path_closure(self@).contains(tag_to_check@)),
    {
        match tags_manager.get_single_tag_container(self) {
            Some(exist_container) => {
                proof {
                    lemma_entry_holds(*tags_manager, self@);
                }
                exist_container.has_tag(tag_to_check)
            },
            None => false,
        }
    }

    /// True when some explicit tag of `container_to_check` is this tag or one of its
    /// ancestors, as the registry knows them.
    pub fn matches_any(
        &self,
        container_to_check: &GameplayTagContainer,
        tags_manager: &GameplayTagsManager,
    ) -> (r: bool)
        requires
            tags_manager.wf(),
        ensures
            r == matches_any_spec(*tags_manager, self@, container_to_check.explicit_set()),
    {
        match tags_manager.get_single_tag_container(self) {
            Some(exist_container) => {
                proof {
                    lemma_entry_holds(*tags_manager, self@);
                }
                let r = exist_container.has_any(container_to_check);
                proof {
                    if r {
                        let x = choose|x: Seq<char>| container_to_check.explicit_set().contains(x) && #[trigger] exist_container.holds(x);
                        assert(path_closure(self@).contains(x));
                    } else {
                        assert forall|x: Seq<char>| container_to_check.explicit_set().contains(x) implies !#[trigger] path_closure(self@).contains(x) by {
                            assert(!exist_container.holds(x));
                        }
                    }
                }
                r
            },
            None => false,
        }
    }

    /// True when `container_to_check` holds this tag explicitly.
    pub fn matches_any_exact(&self, container_to_check: &GameplayTagContainer) -> (r: bool)
        requires
            container_to_check.wf(),
        ensures
            r == container_to_check.explicit_set().contains(self@),
    {
        if container_to_check.is_empty() {
            false
        } else {
            container_to_check.has_tag_exact(self)
        }
    }

    /// True when both paths are equal and `tag_to_check` is valid.
    pub fn matches_tag_exact(&self, tag_to_check: &GameplayTag) -> (r: bool)
        ensures
            r == (tag_to_check@.len() > 0 && self@ == tag_to_check@),
    {
        if !tag_to_check.is_valid() {
            false
        } else {
            self.eq(tag_to_check)
        }
    }
}

impl Clone for GameplayTag {
    fn clone(&self) -> (r: Self)
        ensures
            r@ == self@,
    {
        proof {
            use_type_invariant(self);
        }
        let chars = self.chars.clone();
        assert(chars@ =~= self.chars@);
        GameplayTag { tag_name: self.tag_name.clone(), chars }
    }
}

impl PartialEq for GameplayTag {
    fn eq(&self, other: &GameplayTag) -> (r: bool)
        ensures
            r == (self@ == other@),
    {
        match self.compare(other) {
            Ordering::Equal => true,
            _ => false,
        }
    }
}

impl vstd::std_specs::cmp::PartialEqSpecImpl for GameplayTag {
    open spec fn obeys_eq_spec() -> bool {
        true
    }

    open spec fn eq_spec(&self, other: &GameplayTag) -> bool {
        self@ == other@
    }
}

impl Eq for GameplayTag {
}

} // verus!
