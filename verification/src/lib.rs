//! Forwarding engine for AIS and GNSS sentences received aboard a vessel.
//!
//! The crate holds the decisions of the forwarder: how an endpoint manages
//! its connections, which sentences are passed on to the AIS sinks, when the
//! vessel's own position is reported, how a position report is worded, and
//! what happens to a report that could not be delivered. Sockets, channels
//! and the sentence decoder are driven by the program around the library,
//! which performs the actions that the library names and reports back what
//! came of them.

pub mod text;
pub mod protocol;
pub mod lines;
pub mod buffer;
pub mod endpoint;
pub mod message;
pub mod nmea;
pub mod dispatcher;
pub mod cache;
pub mod location;
pub mod settings;
pub mod receiver;
