pub mod registry;
pub mod lifecycle;
pub mod laws;
pub mod stepper;
pub mod contacts;
pub mod particles;
