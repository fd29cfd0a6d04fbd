pub mod array;
pub mod linked;
