pub mod account;
pub mod bits;
pub mod block;
pub mod curve;
pub mod field;
pub mod merkle;
pub mod state;
pub mod tree;
