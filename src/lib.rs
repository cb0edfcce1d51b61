//! Packet classifier, exec tracer records and rule reconciliation for an
//! XDP firewall and an `execve` auditor, with their control-plane data.
pub mod protocol;
pub mod rules;
pub mod classifier;
pub mod log;
pub mod tracepoint;
pub mod config;
pub mod control_plane;
