pub mod person;
pub mod state;
