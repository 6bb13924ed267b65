pub mod gameplay_tag;
pub mod gameplay_tag_container;
pub mod gameplay_tag_count_container;
pub mod gameplay_tag_requirements;
pub mod gameplay_tags_manager;
pub mod gameplay_tags_plugin;
pub mod tag_maps;
