//! A stable-swap liquidity pool: the invariant solver, its fee accounting,
//! the amplification ramp, and the state machines of the pool record.
pub mod error;
pub mod decimal;
pub mod pool_fee;
pub mod amp_factor;
pub mod equalizer;
pub mod stable_swap;
pub mod state;
pub mod instruction;
pub mod authority;
pub mod defi;
pub mod processor;
pub mod init;
pub mod laws;
