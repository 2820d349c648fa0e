//! Tools for LoRaWAN addressing: the codec between 32-bit device addresses
//! and their class, network id and device fields, network identifiers and
//! the range of device addresses each owns, roaming-token decoding, a bit
//! row editor's operations, and a secret-santa draw.

pub mod bit_looker;
pub mod bits;
pub mod net_id;
pub mod num_format;
pub mod roaming_token;
pub mod santa;
pub mod text;
