//! The zoxide session manager plugin for Zellij, as a verified library: the
//! picker's state and what each event and key changes, session naming,
//! fuzzy search, the shared visit and project records, text fitting, list
//! scrolling, and what the screens draw. Host work comes back as effects for
//! the plugin around it to carry out.

pub mod config;
pub mod input;
pub mod list;
pub mod naming;
pub mod new_session_info;
pub mod picker;
pub mod projects;
pub mod records;
pub mod session;
pub mod session_name;
pub mod session_usage;
pub mod state;
pub mod strings;
pub mod text;
pub mod ui;
pub mod zoxide;
