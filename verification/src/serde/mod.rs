//! Values read back from their serialised form.

pub mod flexbuffer;
