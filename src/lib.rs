//! Hardware telemetry acquisition for Apple-Silicon hosts: frequency ladders,
//! residency-weighted frequency and utilization, energy-to-power conversion,
//! and the management-controller key/value protocol with its dynamic decoder.
//!
//! Native handles and system calls live with the caller; this library holds
//! the decisions and arithmetic, each stated by a contract.
pub mod dvfs;
pub mod text;
pub mod residency;
pub mod perf;
pub mod power;
pub mod reading;
pub mod smc;
pub mod sysinfo;
