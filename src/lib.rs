//! Unsigned division of a six-limb integer by a three-limb integer, read from
//! and written to the memory of a field-element virtual machine.
pub mod bignum;
pub mod felt;
pub mod codec;
pub mod errors;
pub mod memory;
pub mod vm;
pub mod uint384_extension;
