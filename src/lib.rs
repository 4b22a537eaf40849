pub mod field;
pub mod matrix;
pub mod freivald;
