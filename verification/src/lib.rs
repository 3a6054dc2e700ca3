//! Verified core of a MySQL / MariaDB desktop client.

pub mod column_dialog;
pub mod connect;
pub mod contents;
pub mod crash;
pub mod csv;
pub mod csv_export;
pub mod dialog;
pub mod dock;
pub mod dump;
pub mod editor;
pub mod elapsed;
pub mod errors;
pub mod export;
pub mod export_dialog;
pub mod filter;
pub mod format;
pub mod highlight;
pub mod history;
pub mod history_view;
pub mod lines;
pub mod object_view;
pub mod order;
pub mod profile;
pub mod query;
pub mod quote;
pub mod reader;
pub mod results;
pub mod schema;
pub mod script;
pub mod secret;
pub mod session;
pub mod settings;
pub mod sidebar;
pub mod split;
pub mod state;
pub mod store;
pub mod suggest;
pub mod text;
pub mod utf8;
