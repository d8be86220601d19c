//! Sandpiles on a table: the Abelian sandpile model, verified.
//!
//! Grains of sand are dropped on the cells of a rectangular table. A cell
//! that reaches four grains topples and hands one grain to each of its four
//! neighbours, which may topple in turn; grains handed over the edge of the
//! table are lost. This crate holds the table and its counters
//! ([`model`]), the engine that drops a grain and lets the pile come to
//! rest ([`topple`]), the sources that drop grains in turn ([`schedule`]),
//! the part of the table that is in use ([`extent`], [`paint`]), the text in
//! which a model is saved and loaded ([`snapshot`], [`restore`]) and the
//! switches of a running simulation ([`control`]).
//!
//! The rules of toppling are stated over plain numbers in [`pile`]. What is
//! proved of them: the order of topples does not matter ([`pile`]), every
//! pile comes to rest ([`rest`]), a model in order stays in order
//! ([`laws`]), grains can be dropped in any order ([`order`]), and a saved
//! model is loaded as it was ([`roundtrip`]).

pub mod cell;
pub mod control;
pub mod decimal;
pub mod extent;
pub mod hues;
pub mod laws;
pub mod model;
pub mod order;
pub mod paint;
pub mod pile;
pub mod rest;
pub mod restore;
pub mod roundtrip;
pub mod schedule;
pub mod snapshot;
pub mod topple;
pub mod validate;

pub use cell::Cell;
pub use control::{Act, Button, Control, Key, Notice, Reaction};
pub use hues::{Hues, Rgba};
pub use model::{Model, State, TableError, MAX_DROPS, MAX_ITERATIONS};
pub use restore::{Checksum, SnapshotError};
pub use schedule::SourceError;
