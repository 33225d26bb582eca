//! Sessions as the picker lists them, the listing the Zellij CLI prints, and
//! the sessions the picker knows of.

pub mod listing;
pub mod manager;
pub mod types;
