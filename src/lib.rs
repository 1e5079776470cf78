//! Protocol engine for GPS receivers that speak NMEA-0183 and take PMTK commands.
//!
//! The library is pure: it frames bytes into lines, validates and decodes sentences,
//! builds outbound commands and decides what the receiver's replies mean. Reading from
//! and writing to the serial port is left to the caller, who feeds the bytes and lines
//! it receives into the state machines defined here.
pub mod checksum;
pub mod text;
pub mod command;
pub mod fields;
pub mod nmea;
pub mod gps;
pub mod pmtk;
pub mod table;
pub mod baud;
pub mod snapshot;

pub use crate::baud::{BaudProbe, ProbeStep};
pub use crate::checksum::is_valid_checksum;
pub use crate::command::add_checksum;
pub use crate::fields::{Date, Decimal, _format_hhmmss, _parse_degrees};
pub use crate::gps::{GpsSentence, LineFramer, PortConnection, UpdateStep, continue_update, start_update};
pub use crate::nmea::{gga, gll, gsa, gsv, parse_sentence, rmc, vtg};
pub use crate::pmtk::{BaudRateResults, DgpsMode, EpoData, NmeaOutput, Pmtk001Ack, Sbas, SbasMode};
pub use crate::snapshot::{Category, Snapshot};
pub use crate::table::{PmtkCommand, ReplyKind};
