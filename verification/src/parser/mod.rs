//! Recursive-descent parser for Dumper-7 style C++ headers.
pub mod numbers;
pub mod cursor;
pub mod builder;
pub mod decls;
