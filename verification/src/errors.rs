use vstd::prelude::*;

verus! {

/// The closed error taxonomy of the profile store.
#[derive(Clone, Debug, PartialEq, Eq)]
pub enum StoreError {
    /// The profile document is absent for the target operation.
    NotFound,
    /// The named dependent service is unknown to the service directory.
    ServiceNotFound,
    /// The key codec met an escape sequence it cannot decode: the data was
    /// not produced by this codec.
    Validation,
    /// The service directory call itself failed; carries its failure reason.
    Internal { reason: String },
    /// A document-store call failed for a reason other than absence.
    Storage { reason: String },
}

impl StoreError {
    /// The human-readable reason string that every failure surfaces as.
    pub open spec fn reason_view(&self) -> Seq<char> {
        match self {
            StoreError::NotFound => "profile not found"@,
            StoreError::ServiceNotFound => "service not found"@,
            StoreError::Validation => "unknown escape sequence"@,
            StoreError::Internal { reason } => reason@,
            StoreError::Storage { reason } => reason@,
        }
    }

    pub fn reason(&self) -> (r: String)
        ensures
            r@ == self.reason_view(),
    {
        match self {
            StoreError::NotFound => "profile not found".to_owned(),
            StoreError::ServiceNotFound => "service not found".to_owned(),
            StoreError::Validation => "unknown escape sequence".to_owned(),
            StoreError::Internal { reason } => reason.clone(),
            StoreError::Storage { reason } => reason.clone(),
        }
    }
}

} // verus!
