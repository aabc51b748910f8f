//! What holds of every text: laws of the composer, of the scanner and of
//! the encoding, proved from their definitions.

pub mod composing;
pub mod encoding;
pub mod scanning;
