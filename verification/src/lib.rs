//! State logic for a small demo UI: a greeting form that defers to a host
//! command, and an in-memory task list with validated creation and deletion
//! by id. The UI shell and the host call live outside this crate; everything
//! here is plain state and transitions, verified.

pub mod laws;
pub mod state;
pub mod text;
