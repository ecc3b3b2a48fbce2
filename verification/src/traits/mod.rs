//! Traits for walking over what a container holds.

pub mod fold;
pub mod functor;
