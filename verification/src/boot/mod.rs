pub mod awakening;
pub mod boot_state;
pub mod scene_manager;
pub mod timeline;
pub mod transition;
