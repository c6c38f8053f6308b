pub mod text;
pub mod models;
pub mod dates;
pub mod dedup;
pub mod attribution;
pub mod cursor_csv;
pub mod data_source;
pub mod sync;
pub mod hooks;
pub mod codex;
pub mod codex_log;
pub mod antigravity;
pub mod antigravity_usage;
pub mod json_field;
pub mod misc;
pub mod byok;
pub mod status;
pub mod record_queries;
pub mod usage_lines;
pub mod session_meta;
pub mod loading;
pub mod sessions;
