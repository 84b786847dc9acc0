//! Support shared by dynamically loaded modules.
pub mod ports;
