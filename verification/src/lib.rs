//! The core of a small real-time simulation: the decoding of picking colours
//! into entity identities, a registry that issues those identities, and the
//! motion state machine of the units that move on the plane.

pub mod manager;
pub mod minion;
pub mod picking;
