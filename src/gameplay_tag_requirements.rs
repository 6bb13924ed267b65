use vstd::prelude::*;

use crate::gameplay_tag_container::GameplayTagContainer;

verus! {

/// A gate over a container: every tag of `require_tags` must be held, no tag of
/// `ignore_tags` may be held, and a structured query, kept by the caller, must accept it.
pub struct GameplayTagRequirements {
    pub require_tags: GameplayTagContainer,
    pub ignore_tags: GameplayTagContainer,
}

impl Default for GameplayTagRequirements {
    fn default() -> (r: GameplayTagRequirements)
        ensures
            r.require_tags.wf(),
            r.ignore_tags.wf(),
            r.require_tags.explicit_view().len() == 0,
            r.ignore_tags.explicit_view().len() == 0,
    {
        GameplayTagRequirements { require_tags: GameplayTagContainer::new(), ignore_tags: GameplayTagContainer::new() }
    }
}

impl GameplayTagRequirements {
    pub fn new(
        require: GameplayTagContainer,
        ignore: GameplayTagContainer,
    ) -> (r: GameplayTagRequirements)
        ensures
            r.require_tags == require,
            r.ignore_tags == ignore,
    {
        GameplayTagRequirements { require_tags: require, ignore_tags: ignore }
    }

    /// True only when the required set, the ignored set and the query (`has_query`) are all
    /// non-empty.
    pub fn is_empty(&self, has_query: bool) -> (r: bool)
        ensures
            r == (self.require_tags.explicit_view().len() > 0 && self.ignore_tags.explicit_view().len() > 0 && has_query),
    {
        let has_require = !self.require_tags.is_empty();
        let has_ignore = !self.ignore_tags.is_empty();
        has_require && has_ignore && has_query
    }

    /// The container holds every required tag, none of the ignored ones, and
    /// `query_matches`, the verdict of the structured query on it (true without a query),
    /// holds.
    pub fn requirements_met(
        &self,
        container_to_check: &GameplayTagContainer,
        query_matches: bool,
    ) -> (r: bool)
        requires
            container_to_check.wf(),
        ensures
            r == ((forall|t: Seq<char>| self.require_tags.explicit_set().contains(t) ==> #[trigger] container_to_check.holds(t))
                && !(exists|t: Seq<char>| self.ignore_tags.explicit_set().contains(t) && #[trigger] container_to_check.holds(t))
                && query_matches),
    {
        let has_require_met = container_to_check.has_all(&self.require_tags);
        let has_ignore_met = container_to_check.has_any(&self.ignore_tags);
        has_require_met && !has_ignore_met && query_matches
    }
}

} // verus!
