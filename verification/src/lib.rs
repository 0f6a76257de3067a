//! The engine of a scene recorder: what it decides, and the arithmetic behind
//! what it shows.
pub mod audio;
pub mod backend;
pub mod engine;
pub mod fades;
pub mod fixed;
pub mod load;
pub mod output;
pub mod scene;
pub mod settings;
pub mod share;
pub mod stats;
pub mod table;
pub mod text;
