use vstd::prelude::*;

use crate::uniqueid::UniqueId;

verus! {

/// Identifies a node of an expression graph.
#[derive(Debug, Copy, Clone, PartialEq, Eq, Structural, Hash)]
pub struct ExpressionNodeId(pub usize);

impl ExpressionNodeId {
    /// The identifier with the given integer.
    pub fn new(value: usize) -> (id: ExpressionNodeId)
        ensures
            id.0 == value,
    {
        ExpressionNodeId(value)
    }
}

impl Default for ExpressionNodeId {
    /// The first identifier, 1.
    fn default() -> (id: ExpressionNodeId)
        ensures
            id.0 == 1,
    {
        ExpressionNodeId(1)
    }
}

impl UniqueId for ExpressionNodeId {
    open spec fn id_value(&self) -> int {
        self.0 as int
    }

    fn with_value(value: usize) -> (id: ExpressionNodeId) {
        ExpressionNodeId(value)
    }

    fn value(&self) -> (v: usize) {
        self.0
    }

    fn next(&self) -> (n: ExpressionNodeId) {
        ExpressionNodeId(self.0 + 1)
    }
}

/// Identifies a parameter of an expression graph.
#[derive(Debug, Copy, Clone, PartialEq, Eq, Structural, Hash)]
pub struct ExpressionGraphParameterId(pub usize);

impl ExpressionGraphParameterId {
    /// The identifier with the given integer.
    pub fn new(value: usize) -> (id: ExpressionGraphParameterId)
        ensures
            id.0 == value,
    {
        ExpressionGraphParameterId(value)
    }
}

impl Default for ExpressionGraphParameterId {
    /// The first identifier, 1.
    fn default() -> (id: ExpressionGraphParameterId)
        ensures
            id.0 == 1,
    {
        ExpressionGraphParameterId(1)
    }
}

impl UniqueId for ExpressionGraphParameterId {
    open spec fn id_value(&self) -> int {
        self.0 as int
    }

    fn with_value(value: usize) -> (id: ExpressionGraphParameterId) {
        ExpressionGraphParameterId(value)
    }

    fn value(&self) -> (v: usize) {
        self.0
    }

    fn next(&self) -> (n: ExpressionGraphParameterId) {
        ExpressionGraphParameterId(self.0 + 1)
    }
}

/// Identifies a result of an expression graph.
#[derive(Debug, Copy, Clone, PartialEq, Eq, Structural, Hash)]
pub struct ExpressionGraphResultId(pub usize);

impl ExpressionGraphResultId {
    /// The identifier with the given integer.
    pub fn new(value: usize) -> (id: ExpressionGraphResultId)
        ensures
            id.0 == value,
    {
        ExpressionGraphResultId(value)
    }
}

impl Default for ExpressionGraphResultId {
    /// The first identifier, 1.
    fn default() -> (id: ExpressionGraphResultId)
        ensures
            id.0 == 1,
    {
        ExpressionGraphResultId(1)
    }
}

impl UniqueId for ExpressionGraphResultId {
    open spec fn id_value(&self) -> int {
        self.0 as int
    }

    fn with_value(value: usize) -> (id: ExpressionGraphResultId) {
        ExpressionGraphResultId(value)
    }

    fn value(&self) -> (v: usize) {
        self.0
    }

    fn next(&self) -> (n: ExpressionGraphResultId) {
        ExpressionGraphResultId(self.0 + 1)
    }
}

} // verus!
