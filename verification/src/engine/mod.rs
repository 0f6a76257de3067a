//! The engine: what is open, what it draws, and where it goes.
pub mod command_laws;
pub mod commands;
pub mod manager;
pub mod outputs;
pub mod run;
pub mod source_laws;
pub mod sources;
pub mod status;
