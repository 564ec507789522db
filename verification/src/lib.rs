//! Event-processing filter for Linux input devices: events read from input
//! devices flow through an ordered stream of transformations and the results
//! are staged for virtual output devices.
//!
//! The crate holds the decision logic only. Whoever drives it owns the file
//! descriptors, reads the clock and performs the effects that the library
//! queues (device writes, printing, subprocesses).

pub mod capability;
pub mod delay;
pub mod epoll;
pub mod error;
pub mod event;
pub mod hook;
pub mod input;
pub mod input_system;
pub mod key;
pub mod loopback;
pub mod mapping;
pub mod merge;
pub mod output;
pub mod persist;
pub mod predevice;
pub mod print;
pub mod program;
pub mod range;
pub mod seq_util;
pub mod state;
pub mod stream;
pub mod sys;
pub mod withhold;
