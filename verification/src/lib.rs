//! Decoding of Oblivion Remastered save data: the chain of Oodle-compressed
//! chunks, a hex dump of the decoded bytes, and a walk over the Unreal
//! tagged-property list that the decoded bytes hold.

pub mod bytes;
pub mod text;
pub mod decoder;
pub mod gvas_read;
pub mod hexdump;
pub mod interpreter;
pub mod summary;
