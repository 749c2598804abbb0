//! Lossless transcoder between two encodings of a compiled shader module.
//!
//! The word-aligned encoding is what compilers emit: a header of five
//! words, then instructions, each a first word with the opcode in its low
//! half and the number of words in its high half, followed by the operand
//! words. Words are stored least significant byte first.
//!
//! The compact encoding keeps the header, under a magic number of its own,
//! and splits the instructions into five streams of variable-length
//! integers:
//!
//! 1. the opcode and the number of words of each instruction;
//! 2. the result identifiers, each as the folded difference to the one
//!    before;
//! 3. the type identifiers, in the same way;
//! 4. the references to identifiers, as they are;
//! 5. the literals, as they are.
//!
//! Behind the header each stream stands as a section: its length in bytes
//! as a variable-length integer, then its bytes. Which stream an operand
//! goes to is decided by the instruction table, which both directions ask.
//!
//! Every function here is verified against a model of the two encodings:
//! [`encoder::encoded`] and [`decoder::decoded`] say what [`encode`] and
//! [`decode`] return for every input, and [`laws`] proves that decoding
//! undoes encoding.
pub mod decoder;
pub mod encoder;
pub mod error;
pub mod frame;
pub mod header;
pub mod laws;
pub mod module;
pub mod stream;
pub mod table;
pub mod varint;
pub mod words;

pub use crate::decoder::{decode, decode_from, get_decoded_buffer_size};
pub use crate::encoder::{encode, encode_into, EncodeFlags};
pub use crate::error::ErrorKind;
pub use crate::words::write_4;
