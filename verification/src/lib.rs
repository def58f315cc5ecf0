pub mod average;
pub mod exchange;
pub mod feed;
pub mod index;
pub mod laws;
pub mod listen;
pub mod meters;
pub mod osc;
pub mod reply;
pub mod text;
pub mod wire;
pub mod x32;
