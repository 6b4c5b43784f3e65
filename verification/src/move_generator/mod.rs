pub mod tables;
pub mod raw_move_generator;
pub mod utils;
pub mod magics;
pub mod attack_data;
pub mod checks;
pub mod move_generator;
