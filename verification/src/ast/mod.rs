//! Abstract syntax tree of IPE policies and its type system.

pub mod nodes;
pub mod types;

pub use nodes::{
    AggregateFunc, BinaryOp, ComparisonOp, Condition, Expression, LogicalOp, Metadata, Path,
    Policy, Requirements, Value,
};
pub use types::{Type, TypeChecker, TypeEnv, TypeError};
