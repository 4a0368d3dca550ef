//! What holds of the pool as a whole, proved of what the calls are stated to
//! do.

pub mod answers;
pub mod calls;
pub mod draw;
pub mod money;
pub mod parts;
pub mod queries;
pub mod rounds;
pub mod settled;
pub mod taken;
pub mod told;
pub mod views;
