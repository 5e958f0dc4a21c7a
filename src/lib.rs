//! Ed448 signatures and their hexadecimal text form.
#![allow(non_snake_case)]

pub mod hex;
pub mod sig;

pub use hex::{check_case, decode_hex, hex_digit_value, HexError, LetterCase, HEX_LEN};
pub use sig::{Signature, BYTE_SIZE, COMPONENT_SIZE};
