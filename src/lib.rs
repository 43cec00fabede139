//! Gait coordination for a many-legged creature.
//!
//! The legs are split by index parity into two alternating sets; a small
//! state machine decides, once per tick, which set (if any) lifts its feet
//! towards new footholds. Geometry (inverse kinematics, foot arcs) is done by
//! the host in floating point and reaches this crate as per-leg reports.
pub mod gait;
pub mod mesh;
