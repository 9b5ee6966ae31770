//! Network-physics probing and latency-based geolocation.
//!
//! The library measures how long UDP datagrams take to known endpoints and
//! back, and holds those round-trip times against the speed of light: a
//! claimed place that is farther from an endpoint than the signal can travel
//! in the time is refuted, and the place that fits the times best is
//! estimated by a grid search.
//!
//! Every quantity is a whole number: durations are nanoseconds, coordinates
//! micro-degrees, distances metres, speeds metres per second, ratios parts
//! per million. [`units`] reads the doubles of logs and configurations into
//! these units.
//!
//! The library does no input or output of its own. The caller owns the
//! sockets, the clocks and the files, and measures great-circle distances;
//! the library decides:
//!
//! - the probe engine: [`packet`] builds the frames, [`worker`] is the state
//!   of one probe worker, [`probe`] the decisions of one exchange, [`clock`]
//!   and [`cmsg`] the round-trip time of a reply, [`iface`] what is read from
//!   the interface list, [`record`] the record of a burst, [`notes`] its
//!   physics notes, [`config`] and [`hex`] the configuration;
//! - the analyser: [`summary`] and [`stats`] summarise the samples,
//!   [`calibration`] corrects them, [`geo`] bounds distances, [`report`]
//!   lists the findings, and [`solver`], [`bias`], [`grid`], [`search`],
//!   [`band`] and [`estimate`] estimate the place;
//! - [`text`], [`ids`], [`order`] and [`net`] hold what both share.

pub mod band;
pub mod bias;
pub mod calibration;
pub mod clock;
pub mod cmsg;
pub mod config;
pub mod estimate;
pub mod geo;
pub mod grid;
pub mod hex;
pub mod ids;
pub mod iface;
pub mod net;
pub mod notes;
pub mod order;
pub mod packet;
pub mod probe;
pub mod record;
pub mod report;
pub mod search;
pub mod solver;
pub mod stats;
pub mod summary;
pub mod text;
pub mod units;
pub mod worker;
