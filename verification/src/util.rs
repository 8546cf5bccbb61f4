pub mod date;
pub mod decimal;
pub mod math;
pub mod rw;
pub mod text;
