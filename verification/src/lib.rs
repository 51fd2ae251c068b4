//! A sparse-set membership structure: elements map deterministically to
//! non-negative integer keys, and the structure supports O(1) insertion,
//! membership test, and removal while keeping its entries densely packed.

pub mod laws;
pub mod set;
