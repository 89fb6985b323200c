//! A discrete-event simulator of a shared-medium Ethernet LAN at layers 1 and 2.
//!
//! Every cable of a simulated network is a pair of one-way pipes held in one
//! [`Medium`]; a device holds [`Link`] ends, which name its pipes, in its
//! NICs. Stations send frames by CSMA/CD, one byte time per step of their
//! transmitter, and receive them with address
//! recognition, padding removal and a CRC-32 frame check; hubs and buses
//! repeat bytes, and switches learn where addresses are and forward frames.
//! The driver advances hubs, buses and switches one tick at a time.

pub mod access_control;
pub mod bus;
pub mod crc;
pub mod end_device;
pub mod frame;
pub mod header;
pub mod hub;
pub mod mac_addr;
pub mod medium;
pub mod nic;
mod random;
pub mod simulation;
pub mod switch;

pub use crc::calculate_crc;
pub use mac_addr::MacAddr;
pub use frame::{ErrorControl, ReceiveStatus, TransmitStatus};
pub use header::{EtherType, EthernetHeader};
pub use medium::{Link, Medium};
pub use nic::NIC;
pub use access_control::{ReceiveState, TransmitState};
pub use hub::{Hub, PortNumber};
pub use bus::Bus;
pub use switch::Switch;
pub use end_device::EndDevice;
pub use simulation::Simulateable;
