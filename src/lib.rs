//! Wind and airspeed vector arithmetic for air navigation.

pub mod angle;
pub mod fixed;
pub mod airspeed;
