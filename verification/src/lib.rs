//! Incremental force-directed layout of a directed graph on a plane.
//!
//! A [`model::Model`] holds the graph. A [`projection::GraphProjection`]
//! gives each node on display a position, and [`simulation::simulate`] moves
//! the positions one step toward a legible arrangement: connected nodes close
//! to each other, edges pointing from left to right, nothing on top of
//! anything else. A [`view_model::ViewModel`] owns the layout and a camera,
//! keeps the nodes in place when the graph is edited, and finds the node
//! under a point. [`controller::Controller`] turns the input of a frame into
//! edits, and [`render`] turns the layout into squares and arrows.
//!
//! All coordinates, weights and colours are signed fixed-point numbers with
//! six decimal digits (see [`fixed`]). Every operation saturates instead of
//! overflowing and rounds toward zero, so a step of the simulation is an
//! exact function of the layout, the graph, the settings and the random
//! draws, and no function of this crate panics.
//!
//! The graph itself is a `petgraph` stable graph and the random draws come
//! from a `rand` generator; [`graph`] and [`jitter`] state what this crate
//! relies on from them, and [`outside`] declares their types.

pub mod controller;
pub mod fixed;
pub mod geometry;
pub mod graph;
pub mod jitter;
pub mod model;
pub mod outside;
pub mod projection;
pub mod render;
pub mod simulation;
pub mod view_model;
