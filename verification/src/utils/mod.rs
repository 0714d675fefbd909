pub mod constants;
pub mod math;
