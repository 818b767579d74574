//! BFO grounding for AtScale semantic-layer models.
//!
//! Each element of an AtScale model (measure, dimension, key, date,
//! hierarchy, ...) is assigned a BFO 2020 upper-level category with a
//! rationale; the grounding can be emitted as an annotation overlay, a
//! coverage report, a diff between two models, and RDF (OWL/XML or Turtle).
//!
//! # Modules
//! - [`model`]    model types (the `describe_model` shape)
//! - [`mapper`]   BFO category assignment rules
//! - [`annotate`] grounded overlay
//! - [`report`]   coverage statistics
//! - [`diff`]     element-by-element comparison of two models
//! - [`rdf`]      OWL/XML and Turtle export
//! - [`validate`] decisions around the OWL reasoner
//! - [`error`]    error types
pub mod annotate;
pub mod diff;
pub mod error;
pub mod mapper;
pub mod model;
pub mod order;
pub mod rdf;
pub mod report;
pub mod tally;
pub mod text;
pub mod turtle;
pub mod validate;

pub use error::AtscaleError;
pub use mapper::{BfoCategory, GroundedElement, Mapper};
pub use model::AtscaleModel;
