//! Streaming repeating-key XOR file transformer.
//!
//! The library holds the verified core of a small command-line tool that
//! XORs a file (or a directory tree) against a repeating key, writing the
//! result into a reserved `xor` subdirectory next to each input file:
//! the byte transform itself, hex key parsing, output-path derivation,
//! the traversal filter that keeps a walk out of its own output, the
//! chunked streaming state, and the progress arithmetic. The thin shell
//! that performs terminal and file I/O lives outside the library.

pub mod display;
pub mod key;
pub mod paths;
pub mod progress;
pub mod stream;
pub mod transform;
pub mod walk;
