pub mod binary;
pub mod hex;
pub mod trans;
