//! Verified core of a Bayesian model runtime: documents, identities, investigation
//! snapshots, model layouts, and the decisions that the command line makes.

pub mod ancestral;
pub mod artifact;
pub mod bounds;
pub mod bounds_laws;
pub mod cli;
pub mod constants;
pub mod data;
pub mod density;
pub mod density_laws;
pub mod depth;
pub mod document_laws;
pub mod error;
pub mod fingerprint;
pub mod generation;
pub mod identity;
pub mod inspect;
pub mod investigation;
pub mod ir;
pub mod json;
pub mod lines;
pub mod logp;
pub mod meaning;
pub mod model;
pub mod model_laws;
pub mod number;
pub mod numerics;
pub mod nuts;
pub mod order;
pub mod posterior;
pub mod predictive;
pub mod render;
pub mod sameness;
pub mod sameness_laws;
pub mod shapes;
pub mod shapes_laws;
pub mod tensor;
pub mod term;
pub mod text;
pub mod text_laws;
pub mod transform;
pub mod transform_laws;
pub mod truncation_laws;
pub mod vector_laws;
pub mod workspace;
