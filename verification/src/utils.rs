//! Polynomial operations that the commitment schemes share.

pub mod poly;
