//! A keyboard-driven hierarchical launcher's core: the menu tree, its JSON
//! configuration format, and the key-driven navigation state machine.
pub mod config;
pub mod json;
pub mod model;
pub mod navigator;

pub use config::{
    config_dir_in, config_file_in, items_key_duplicate, parse_item, parse_items,
    resolve_user_config_dir, ConfigError, DEFAULT_CONFIG,
};
pub use json::JsonValue;
pub use model::{duplicate_items, Item, ItemValue};
pub use navigator::{NavigationOutcome, Navigator, ENTER_KEY};
