pub mod role;
pub mod sign;
