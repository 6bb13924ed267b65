use vstd::prelude::*;

verus! {

/// Where the label list is loaded from: `None` for the built-in settings.
pub struct GameplayTagsPlugin {
    pub data_path: Option<String>,
}

impl GameplayTagsPlugin {
    pub fn new() -> (r: GameplayTagsPlugin)
        ensures
            r.data_path.is_none(),
    {
        GameplayTagsPlugin { data_path: None }
    }

    pub fn with_data_path(data_path: String) -> (r: GameplayTagsPlugin)
        ensures
            r.data_path == Some(data_path),
    {
        GameplayTagsPlugin { data_path: Some(data_path) }
    }
}

} // verus!
