//! Decision logic of an anycast health checker: configuration model,
//! health-probe verdicts, the rise/fall hysteresis that decides when a
//! service address is advertised on the loopback interface, and the
//! interpretation of loopback address changes.

pub mod text;
pub mod runner;
pub mod config;
pub mod checks;
pub mod address;
pub mod ip;
pub mod load;
