//! Composable request routing where each subtree of routes carries its own
//! bound state, and every handler's state is resolved to exactly one
//! enclosing scope before the table is frozen for dispatch.

pub mod route;
pub mod router;
pub mod laws;
pub mod site;
