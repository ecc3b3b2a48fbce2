//! Byte buffers sealed with a key.

pub mod aesgcm;
