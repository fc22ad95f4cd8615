//! MD4 message digest, with its padding, block parsing and compression
//! function specified and proved in Verus.

pub mod md4;
