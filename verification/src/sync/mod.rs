//! Mapping of each sync source's records onto the canonical `Device`.
pub mod hue;
pub mod shelly;
pub mod ccu;
pub mod ha;
pub mod nodered;
