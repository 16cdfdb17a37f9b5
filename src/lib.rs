//! Reading and writing of KCAP resource archives, with the password-derived
//! key table that obfuscates their payloads.

pub mod bytes;
pub mod crc32;
pub mod fvt;
pub mod kcap;
pub mod key_table;
pub mod keygen;
pub mod legacy;
pub mod round_trip;
pub mod writer;
