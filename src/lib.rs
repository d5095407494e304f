use vstd::prelude::*;

pub mod b64;
pub mod codec;
pub mod error;
pub mod records;
pub mod xor;

pub use codec::{decode_with, obfuscate, unobfuscate};
pub use error::{RunError, SaveError};
pub use records::{BossRelicChoice, Card};
pub use xor::{xor_key, KeyXORReader};

verus! {

} // verus!
