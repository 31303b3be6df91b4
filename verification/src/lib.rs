//! The logic of a dual-pane terminal file-transfer tool: sanitizing what the
//! user types, building the shell and scp arguments, ordering directory
//! listings, and the state machine of the browser and the upload queue.
pub mod text;
pub mod remote;
pub mod config;
pub mod order;
pub mod paths;
pub mod local;
pub mod transfer;
pub mod app;
pub mod status;
