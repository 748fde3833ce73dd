//! Type-safe vector symbolic architectures with a small expression engine.

mod expression;
mod storage;
mod vsa;

pub use self::expression::{
    Evaluation, EvaluateOps, Expression, ExpressionView, ParseError, ParseFailure, Parser, UnknownValue,
};
pub use self::vsa::architectures;
pub use self::storage::{
    AllIter, Column, ColumnIter, ColumnValues, Queryable, SelectionIter, Selector,
    Storage, StorageError, Subset, SubsetError, Table, TableColumn, Value, VectorIndex,
};
pub use self::vsa::{Dynamic, Fixed, FixedSize, Normalized, NotNormalized, Size, Vector, VectorType};
