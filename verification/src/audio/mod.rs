//! The sound of a scene: which devices are open, what is done to what they
//! capture, and what the meters show.
pub mod device;
pub mod filters;
pub mod graph;
pub mod level;
pub mod manager;
pub mod wiring;
pub mod worker;
