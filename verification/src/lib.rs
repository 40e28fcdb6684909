//! Interactive regions over a vector drawing.
//!
//! A drawing names some of its paths as dynamic shapes. This crate reads them
//! out of the document, keeps them together with a logical state per shape and
//! a fill style per state, and decides for a pointer position which shape is
//! hit and how every shape is filled.
//!
//! Coordinates are carried as the bit patterns of IEEE 754 double precision
//! numbers. The crate does no arithmetic on them but to cut one down to its
//! whole part: the one sum and the one product that the geometry needs are
//! handed in by the caller as functions on bit patterns, and the contracts
//! say to which operands they are applied.
//! Nor does it draw: the caller issues the commands to its surface and
//! reports which paths contain the pointer.

pub mod number;
pub mod path;
pub mod table;
pub mod document;
pub mod drawer;

pub use path::{Axis, Command, PathSegment, Step, Stroke};
pub use document::{LoadError, Node, ViewBox};
pub use drawer::{MapDrawerInterface, Point};
