//! The decisions of a robot's navigation daemon.
//!
//! The daemon drives a robot from one pair of AprilTags to the next. It reads
//! the tags that a vision process sees, takes commands from a remote control,
//! polls the motor controller for its sensors and sends it a command fifty times
//! a second. What it decides in all of this stands here, with its contracts; the
//! threads, ports, sockets and files around it are the program's.
pub mod clock;
pub mod control;
pub mod nav;
pub mod playback;
pub mod recorder;
pub mod recording;
pub mod replayer;
pub mod sensor;
pub mod single;
pub mod state;
pub mod text;
pub mod transitions;
pub mod uart;
pub mod udp;
pub mod vision;
