pub mod text;
pub mod config_dir;
pub mod theme;
pub mod kv_config;
pub mod theme_store;
pub mod ghostty_import;
pub mod apps;
pub mod update_check;
pub mod backup;
pub mod config_override;
pub mod day_night;
pub mod commands;
pub mod fonts;
