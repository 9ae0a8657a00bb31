//! The logic of `themed`: one theme, kept in step across a small fleet.
//!
//! A daemon on every host holds one record, a version and an opaque JSON blob,
//! and the highest version wins. The machine where the theme changes pushes it
//! to the others, and each that learns something new passes it on once.
//!
//! - [`daemon`] is the register: what is adopted, answered, remembered and
//!   passed on. [`fleet`] states what daemons that talk to each other can count
//!   on.
//! - [`proto`] is the wire format, [`scan`] the objects it is made of, [`json`]
//!   the values in them, and [`text`] their bytes.
//! - [`version`] stamps what is set here; [`peer`] and [`control`] are the
//!   sending ends of the two sockets.
//! - [`setup`] turns flags and defaults into a configuration, and [`retry`]
//!   paces attempts at what may not be up yet.
//!
//! Sockets, files, threads and the hook are the program's; it hands over bytes
//! and takes bytes back.

pub mod text;
pub mod json;
pub mod scan;
pub mod proto;
pub mod version;
pub mod peer;
pub mod control;
pub mod daemon;
pub mod fleet;
pub mod retry;
pub mod setup;
