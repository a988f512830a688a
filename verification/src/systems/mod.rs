pub mod ai_system;
pub mod input_system;
pub mod move_system;
pub mod turn_system;
