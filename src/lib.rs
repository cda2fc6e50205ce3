//! A growable byte buffer that is written at one end and read at the other, for assembling and
//! parsing binary messages that arrive or leave in pieces of any size.
//!
//! The storage is split by two cursors: the bytes before the read cursor were consumed, those
//! between the cursors are readable, and those after the write cursor are free. An expected
//! length bounds how much a transport read may fill. Integers are encoded big-endian.
pub mod buffer;
pub mod codec;
pub mod ext;
pub mod laws;
pub mod transport;

pub use buffer::{BufferModel, RwBuffer};
pub use ext::{RwBufferExt, StrError};
pub use transport::{ByteSink, ByteSource};
