//! The directories zoxide lists, and searching them with the sessions the
//! picker lists.

pub mod query;
pub mod search;
