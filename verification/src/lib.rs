use vstd::prelude::*;

pub mod amount;
pub mod decode;
pub mod digits;
pub mod engine;
pub mod ledger;

verus! {

pub use crate::amount::Amount;
pub use crate::decode::{find_columns, decode_row, parse_operation, parse_u16, parse_u32, trim, Columns};
pub use crate::engine::Engine;
pub use crate::ledger::{Operation, Input, Transaction, AccountStatus, Client};

} // verus!
