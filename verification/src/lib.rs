//! A verified core for an aviation information receiver: a fixed-frequency
//! pipeline that fuses satellite-navigation, barometric and ADS-B sensor
//! input into an ownship state and a traffic picture, serializes the
//! situation as GDL 90 records and paces their delivery over UDP.

pub mod clock;
pub mod fisb;
pub mod gdl90;
pub mod gnss;
pub mod handle;
pub mod ownship;
pub mod payload;
pub mod pitot;
pub mod report;
pub mod sensor;
pub mod traffic;
pub mod uat;
pub mod ublox;
pub mod udp;
pub mod util;
pub mod views;
