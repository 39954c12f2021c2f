pub mod engine;
pub mod transposition;
pub mod checked;
pub mod ray;
pub mod moves;
pub mod count;
pub mod sender;
