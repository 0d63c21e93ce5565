//! A symmetric block cipher built on a large secret key buffer.
//!
//! Each block is combined by exclusive-or with a window of the key material;
//! the window is selected by a nonlinear hash of a masked block index, so the
//! transform is an involution: the same call encrypts and decrypts.

pub mod alg1;
pub mod alg2;
pub mod algorithm;
pub mod key;

pub use algorithm::{
    CipherBlockRef, GenericCipher, GenericCipherBlock, Index, IndexHash, WindowMode,
};
pub use key::{Key, Word};
