//! Digital rain: per-column droplet simulation and the cell updates that draw it.

mod chance;
pub mod droplet;
pub mod render;
