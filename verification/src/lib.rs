pub mod text;
pub mod ignore;
pub mod blame;
pub mod records;
pub mod security;
pub mod hexcodec;
pub mod webhook;
pub mod crypto;
pub mod numparse;
pub mod settings;
pub mod paths;
pub mod dispatch;
pub mod scanning;
pub mod recycle;
pub mod recency;
pub mod history;
pub mod snapshots;
pub mod reports;
pub mod notify;
pub mod autostart;
pub mod search;
pub mod endpoints;
pub mod duplicates;
pub mod commands;
pub mod laws;
