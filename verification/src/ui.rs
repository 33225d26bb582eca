//! What the picker draws: fitted fields, row texts, dialogs and the
//! new-session form, as plain text with the positions the styles apply to.

pub mod components;
pub mod renderer;
pub mod theme;
