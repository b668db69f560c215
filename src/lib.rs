pub mod address;
pub mod focus;
pub mod keys;
pub mod laws;
pub mod shadow;
pub mod state;
pub mod text;
pub mod topology;
pub mod volume;
pub mod watchdog;
