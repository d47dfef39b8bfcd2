//! Decisions behind the Weylus control window: reading the settings form,
//! choosing the address that tablets are told to connect to, building the
//! connection link and its QR picture, labelling capture targets, placing the
//! QR popup, and the start/stop state of the servers.
pub mod number;
pub mod address;
pub mod form;
pub mod link;
pub mod labels;
pub mod geometry;
pub mod toggle;
pub mod qr;
pub mod text;
pub mod ip_parse;
pub mod round_trip;
