pub mod gameplay_state_system;
pub mod input_system;
