//! Data structures that the virtual machine builds on.
pub mod linkedlist;
