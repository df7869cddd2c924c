//! Verified core of the Tidebound overworld contracts: the fixed-point Perlin
//! noise generator that shapes island terrain, and the player registry that
//! hands every player a world seed.

pub mod arith;
pub mod digest;
pub mod terrain;
pub mod store;
pub mod account;
pub mod perlin;
pub mod tidebound;
pub mod laws;

pub use account::AccountId;
pub use perlin::{ContractError, PerlinNoise};
pub use tidebound::{Error, OpaqueData, Tidebound, WorldConfig};
