//! A fixed-point decimal library for deterministic financial arithmetic.
//!
//! Values are stored as a 192-bit unsigned integer scaled by `10^18`, so a
//! raw value of `10^18` denotes the number one.  Every arithmetic operation
//! is checked: it either returns an exact result or reports an overflow,
//! and no operation panics.

pub mod common;
pub mod u192;
pub mod wide;
pub mod decimal;
pub mod display;
pub mod laws;

pub use common::DecimalError;
pub use common::BPS_SCALER;
pub use common::HALF_WAD;
pub use common::PERCENT_SCALER;
pub use common::SCALE;
pub use common::WAD;
pub use decimal::Decimal;
pub use u192::U192;
