//! Verified core of the T-REX ground-station firmware and its host tools:
//! the firmware-update wire protocol, the device-side update decisions,
//! ELF image flattening and flash planning, the log frame buffer, the step
//! counter arithmetic and the small state machines of the control loop.
pub mod protocol;
pub mod manager;
pub mod digest;
pub mod image;
pub mod flash;
pub mod stepper;
pub mod telemetry;
pub mod control;
pub mod logger;
pub mod session;
pub mod logview;
