//! Renders a process invocation the way it would be typed into a POSIX-like
//! shell, quoting each word only where the shell would otherwise misread it.
//!
//! [`quote`] writes one word in the lightest style that keeps it intact: as
//! it is, between double quotes, or between single quotes with its own single
//! quotes escaped. [`Unquoted`] renders a program with its arguments and
//! environment assignments, each word quoted in that way.
//!
//! The text is meant for people reading logs and error messages. It
//! approximates a shell command line and is not meant to be run.

pub mod charset;
pub mod laws;
pub mod quote;
pub mod render;
pub mod reserved;

pub use crate::quote::quote;
pub use crate::render::Unquoted;
pub use crate::reserved::RESERVED_COMMAND_WORDS;
