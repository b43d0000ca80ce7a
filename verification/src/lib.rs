//! A quantity of gas: the unit in which a metered runtime charges for
//! computation. The value is an unsigned 64-bit count of gas units with
//! checked arithmetic, a decimal text form and a fixed-width binary form.

pub mod binary;
pub mod convert;
pub mod error;
pub mod gas;
pub mod order;
pub mod text;

pub use error::GasError;
pub use gas::{Gas, ONE_TGAS};
