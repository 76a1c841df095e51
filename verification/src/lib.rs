//! The core of a headless PNG-tuber: a layered avatar that follows a
//! microphone and is shown through a virtual webcam.
//!
//! - [`protocol`] and [`config`]: the domain model and the settings.
//! - [`assets`]: the layer catalog and the resolution of layers.
//! - [`state`]: the state machine that owns what the avatar shows.
//! - [`schedule`]: the render limiter, the blink cycle and the animation timers.
//! - [`compositor`], over [`images`] and [`pixels`]: frames from layers.
//! - [`webcam`], over [`lanes`]: frames packed for a video device.
//! - [`control`] and [`net`]: commands from a terminal and from the network.
//! - [`audio`] and [`runtime`]: choices made when the pipeline is brought up.
//! - [`text`], [`textmap`], [`buffers`] and [`binary32`]: texts, maps, vectors
//!   and numbers.
//!
//! Everything here computes on plain values. Reading files, devices, sockets
//! and clocks is left to the program around it.
pub mod assets;
pub mod audio;
pub mod binary32;
pub mod buffers;
pub mod compositor;
pub mod config;
pub mod control;
pub mod images;
pub mod lanes;
pub mod net;
pub mod pixels;
pub mod protocol;
pub mod runtime;
pub mod schedule;
pub mod state;
pub mod text;
pub mod textmap;
pub mod webcam;
