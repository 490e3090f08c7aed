//! A sparse, N-dimensional, weighted cross-reference engine (a generalised
//! House of Quality): dimensions of members, pairwise relations holding
//! categorical observations, contraction chains, and the integrity and
//! traceability analyses over them.

pub mod model;
pub mod lookup;
pub mod seqs;
pub mod text;
pub mod validate;
pub mod engine;
pub mod valence;
pub mod trace;
pub mod coverage;
pub mod describe;
pub mod analysis;
pub mod stale;
pub mod merge;
pub mod store;
pub mod requests;
pub mod findings;
pub mod laws;

pub use analysis::Axis;
pub use coverage::{AxisCoverage, Orphan};
pub use describe::{DimensionSummary, ModelDescription, RelationSummary};
pub use engine::Model;
pub use model::{
    Cell, Contraction, CoveragePolicy, CrossMatrixModel, Dimension, Evidence, Level,
    LifecycleStatus, Member, Observation, ProvenanceClass, Relation, RelationType, ScaleDef,
    SourceRef, WeightCombination,
};
pub use trace::{TraceDirection, TraceHop};
pub use validate::ValidationError;
