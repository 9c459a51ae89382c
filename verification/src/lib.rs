pub mod collisions;
pub mod config;
pub mod drawing_laws;
pub mod finding;
pub mod fs_ops;
pub mod icon;
pub mod listing;
pub mod markdown;
pub mod modal;
pub mod modal_events;
pub mod modal_keys;
pub mod modal_laws;
pub mod modal_plan;
pub mod naming_laws;
pub mod note_set;
pub mod numbering;
pub mod order;
pub mod paths;
pub mod plan;
pub mod reconcile;
pub mod screen;
pub mod session;
pub mod settling;
pub mod style;
pub mod text;
pub mod viewport;
pub mod watcher;
pub mod watcher_events;
pub mod watcher_laws;
pub mod watcher_plan;
