//! The core of a simulator of reciprocating engines and of the networks of
//! manifolds, plena and ambient boundaries that they breathe through.
//!
//! A system is made of control volumes, which are regions of uniform
//! pressure, temperature and composition, and of connectors, through which
//! two control volumes exchange mass and energy. This library holds what such
//! a simulator decides without computing a physical quantity:
//!
//! - the species of a gas and the language in which compositions are written
//!   (`composition`, `number`, `text`);
//! - the layout of an engine: firing order, cylinders and valves (`engine`);
//! - the endpoints of a connector, the direction of its flow, and the windows
//!   of the cycle in which a valve is open (`connector`, `window`);
//! - the phases of a cylinder (`cylinder`);
//! - the names of the objects, the index tables that join them, the schedule
//!   of a step and the run to steady state (`names`, `topology`,
//!   `system_builder`, `system`);
//! - the samples that are stored of each object, which are kept in an array
//!   of `ndarray`, and their text form (`store`, `table`, `headers`).
//!
//! Pressures, temperatures, flows and angles themselves belong to the
//! program around the library, which hands the library what it has compared
//! and measured, and does what the library decides.

use vstd::prelude::*;

pub mod composition;
pub mod connector;
pub mod cylinder;
pub mod engine;
pub mod headers;
pub mod names;
pub mod number;
pub mod store;
pub mod system;
pub mod system_builder;
pub mod table;
pub mod text;
pub mod topology;
pub mod window;

verus! {

/// The kind of an object that a system holds.
#[derive(Debug, Clone, Copy, PartialEq, Eq, Structural)]
pub enum ObjectType {
    ZeroDim,
    OneDim,
    Connector,
    Cylinder,
}

} // verus!
