//! Exercise solutions in the style of a classic programming textbook:
//! numeric recursion, prime sieves, rational arithmetic, and a pair of
//! verified list structures: a heterogeneous cons list and a typed
//! doubly linked list backed by an arena.

pub mod arith;
pub mod base;
pub mod ch1;
pub mod ch2;
pub mod utils;
