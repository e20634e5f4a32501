//! Dense GF(256) matrix primitives for a Gaussian-elimination based
//! erasure-coding decoder: row-major storage of single-byte field
//! elements with in-place row arithmetic and row/column permutations.

pub mod octet;
pub mod octets;
pub mod octet_matrix;
