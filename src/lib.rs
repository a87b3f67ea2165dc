use vstd::prelude::*;

pub mod decoder;
pub mod error;
pub mod hex;
pub mod laws;
pub mod session;

pub use decoder::HexDecoder;
pub use error::{filter_broken_pipe, HexError};
pub use hex::{from_hex_digit, to_hex_digit};
pub use session::{decode, encode, App};

verus! {

} // verus!
