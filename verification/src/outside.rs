//! The types of other crates that this crate holds values of.
//!
//! Nothing is known of what is inside such a value; what this crate relies on
//! is stated with the functions that take or give one.

use vstd::prelude::*;
use petgraph::stable_graph::StableGraph;
use petgraph::Directed;
use rand::rngs::StdRng;

verus! {

/// `petgraph::stable_graph::StableGraph`, a graph whose node indices stay
/// valid when other nodes are removed. Nothing is known of what is inside a
/// value but through the functions of the `graph` module.
#[verifier::external_type_specification]
#[verifier::external_body]
#[verifier::reject_recursive_types(N)]
#[verifier::reject_recursive_types(E)]
#[verifier::reject_recursive_types(Ty)]
#[verifier::reject_recursive_types(Ix)]
pub struct ExStableGraph<N, E, Ty, Ix>(StableGraph<N, E, Ty, Ix>);

/// `petgraph::Directed`, the marker of graphs with directed edges.
#[verifier::external_type_specification]
#[verifier::external_body]
pub struct ExDirected(Directed);

/// `rand::rngs::StdRng`, a random generator that can be seeded. Nothing is
/// known of its state.
#[verifier::external_type_specification]
#[verifier::external_body]
pub struct ExStdRng(StdRng);

} // verus!
