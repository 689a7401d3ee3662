//! `itsalive` brings up HDMI and the Linux frame buffer on a MiSTer that runs
//! nothing but its boot loader.
//!
//! The library holds every decision of the tool: the register tables of the
//! HDMI transmitter, the PLL arithmetic, the framing of the fabric mailbox, the
//! geometry of the frame buffer, the grammar of the command line and the order
//! in which one command touches the devices. Reading and writing the devices
//! is left to the program, which implements the small traits of [`mailbox`] and
//! [`hw`].

pub mod adv7513;
pub mod cli;
pub mod error;
pub mod fb;
pub mod hw;
pub mod journal;
mod line;
pub mod mailbox;
pub mod narration;
pub mod probe;
pub mod rounding;
pub mod say;
pub mod scan;
pub mod sequence;
pub mod support;
pub mod text;
pub mod video;

pub use error::{Error, Result};
