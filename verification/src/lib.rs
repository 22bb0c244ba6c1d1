//! The query pipeline compiler of a typed graph database, with what it
//! rests on and what runs its output.
//!
//! [`compile::compile_pipeline`] lowers the annotated stages of a query, its
//! functions and its fetch clause into an executable pipeline: it threads the
//! layout of the rows from stage to stage ([`pipeline`]), plans matches
//! ([`match_planner`]), compiles writes ([`write`]) and functions
//! ([`function`]), and finds the functions that need tabling ([`tabling`]).
//! [`links_executor`] runs the `links` constraint of a compiled match over the
//! instances that a [`thing::ThingManager`] holds.
//!
//! Contracts are stated over mathematical models: a row layout is a
//! `Map` from variables to positions, a stream is a `Seq`. The calls into
//! the `itertools` crate are gathered in [`itertools_specs`]; what is said of
//! them there is believed, not proved.

pub mod attribute;
pub mod compile;
pub mod concept;
pub mod definable_status;
pub mod encoding;
pub mod error;
pub mod executable_id;
pub mod fetch;
pub mod function;
pub mod id_map;
pub mod id_set;
pub mod itertools_specs;
pub mod label;
pub mod links_executor;
pub mod match_planner;
pub mod modifiers;
pub mod parameters;
pub mod pattern;
pub mod pipeline;
pub mod reduce;
pub mod registry;
pub mod row;
pub mod stage;
pub mod tabling;
pub mod thing;
pub mod translation;
pub mod tuple;
pub mod variable;
pub mod write;
