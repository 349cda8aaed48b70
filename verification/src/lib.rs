//! Verified logic of a CAN-attached STM32 sensor module: sensor bookkeeping,
//! splitting messages into CAN frames, the module's join handshake with the
//! bus server, and the byte layouts of the readings it reports.

pub mod sensor_config;
pub mod can_bus;
pub mod registration;
pub mod readings;
