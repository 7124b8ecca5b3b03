pub mod fields;
pub mod history;
pub mod session;
pub mod telemetry;
