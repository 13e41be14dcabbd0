//! Evaluation of the quotient polynomial of a PLONK-style proving system.
//!
//! The constraints of a circuit (custom gates, permutation arguments and
//! lookup arguments) are compiled once into flat, deduplicated graphs of
//! calculations. For a batch of proofs the graphs are then evaluated at
//! every row of the extended coset, and the residuals of all identities are
//! folded into one vector by Horner's rule with the challenge y.
//!
//! * [`field`] states what a field is, and [`goldilocks`] is one.
//! * [`expression`] holds the constraints as trees and what they evaluate
//!   to; [`value_source`], [`calculation`] and [`graph`] hold the compiled
//!   form and its evaluation.
//! * [`compile`] compiles expressions into a graph, and [`soundness`]
//!   proves that the graph computes what the expression evaluates to.
//! * [`circuit`] and [`keys`] hold what is read of the constraint system
//!   and of the proving key; [`validate`] tests at run time what the
//!   functions of this crate require of them.
//! * [`evaluator`] builds the graphs of a constraint system, [`permutation`]
//!   and [`lookup`] state and accumulate their identities, [`quotient`]
//!   assembles the quotient, and [`residuals`] proves that it is the Horner
//!   combination of the residuals.

pub mod calculation;
pub mod circuit;
pub mod compile;
pub mod evaluator;
pub mod expression;
pub mod field;
pub mod goldilocks;
pub mod graph;
pub mod keys;
pub mod lookup;
pub mod permutation;
pub mod polynomial;
pub mod quotient;
pub mod residuals;
pub mod rotation;
pub mod soundness;
pub mod validate;
pub mod value_source;

pub use calculation::Calculation;
pub use evaluator::Evaluator;
pub use expression::{evaluate, Expression};
pub use graph::{CalculationInfo, EvaluationData, GraphEvaluator};
pub use rotation::{get_rotation_idx, Rotation};
pub use value_source::ValueSource;
