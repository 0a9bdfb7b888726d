//! Configuration of the microcontrollers that the framework supports.
pub mod nrf52840;
pub mod rp2040;
