pub mod fixed;
pub mod particle;
pub mod settings;
pub mod actions;
pub mod rules;
pub mod chunks;
pub mod chunking;
pub mod physics;
pub mod force;
pub mod simulation;
