//! A bootstrap-phase memory manager: a double-ended bump allocator that
//! serves byte requests growing forward and page requests growing backward
//! out of one fixed region, plus a fixed-bucket chained hash map used as an
//! auxiliary container during early boot.

pub mod bump;
pub mod hashmap;
