//! Errors reported by the ERP operations.
use vstd::prelude::*;

verus! {

/// Errors that can occur in the ERP system.
#[derive(Debug, Clone, Copy, PartialEq, Eq, Structural)]
pub enum ErpError {
    InvalidQuantity,
    InsufficientStock,
    InvalidStatusTransition,
    NotFound,
}

impl ErpError {
    /// The human-readable message of the error.
    pub open spec fn spec_message(self) -> Seq<char> {
        match self {
            ErpError::InvalidQuantity => "invalid quantity"@,
            ErpError::InsufficientStock => "insufficient stock"@,
            ErpError::InvalidStatusTransition => "invalid status transition"@,
            ErpError::NotFound => "not found"@,
        }
    }

    /// The human-readable message of the error.
    pub fn to_string(&self) -> (s: String)
        ensures
            s@ == self.spec_message(),
    {
        match self {
            ErpError::InvalidQuantity => "invalid quantity".to_owned(),
            ErpError::InsufficientStock => "insufficient stock".to_owned(),
            ErpError::InvalidStatusTransition => "invalid status transition".to_owned(),
            ErpError::NotFound => "not found".to_owned(),
        }
    }
}

} // verus!
