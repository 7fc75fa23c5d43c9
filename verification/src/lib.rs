//! Observation of a wrapped command and its descendants, and the report on it.

pub mod address;
pub mod any_order;
pub mod boundary;
pub mod counting_laws;
pub mod file_laws;
pub mod filesystem;
pub mod formatting;
pub mod guarantees;
pub mod network;
pub mod network_laws;
pub mod numbers;
pub mod observation;
pub mod observed;
pub mod order;
pub mod order_laws;
pub mod output;
pub mod paths;
pub mod platform;
pub mod process;
pub mod process_files;
pub mod process_laws;
pub mod quoting;
pub mod report;
pub mod report_laws;
pub mod scanning;
pub mod session;
pub mod socket_laws;
pub mod sockets;
pub mod table;
pub mod text;
pub mod text_laws;
