//! A discrete-time model of DC fast charging: vehicles with piecewise-linear
//! charge curves contend for the power budget of shared chargers, and a
//! simulation emits one frame of allocations and delivered energy per step.

pub mod charger;
pub mod curve;
pub mod photos;
pub mod quantities;
pub mod sim;
pub mod vehicle;

pub use quantities::Energy;
pub use quantities::Percentage;
pub use quantities::Power;
