//! Verified core of a deterministic network-conditions harness for
//! client-side prediction and rollback reconciliation.
//!
//! The library holds the integer and scheduling logic of the simulation:
//! the per-connection delivery queue, the remote-state sources built on it,
//! the waypoint clock of the authoritative world, the bookkeeping of a
//! reconciled track, and the per-tick schedule of a whole run. Kinematics,
//! confidence math and the lossy half of a link (all floating point) and
//! file output live in the application around it.

pub mod config;
pub mod random;
pub mod reconciler;
pub mod schedule;
pub mod seeds;
pub mod shim;
pub mod source;
pub mod track;
pub mod world;
