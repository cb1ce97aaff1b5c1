//! Small encrypted integers with degree and noise bookkeeping, and the unchecked and smart
//! operations on them.
use vstd::prelude::*;

pub mod ciphertext;
pub mod parameters;
pub mod client_key;
pub mod server_key;
pub mod engine;
pub mod key_switching_key;
pub mod laws;

verus! {

} // verus!
